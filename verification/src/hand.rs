//! Hands: what a sequence of cards counts for, the state of a player's and of
//! the dealer's hand, and the hands that one wager fans out to by splitting.

use vstd::prelude::*;

use crate::cards::{Card, CardRank};
use crate::rules::{HouseRules, HouseRulesView, SPLITS_PER_HAND, SPLIT_ON_VALUE_MATCH};

verus! {

/// How a hand stands. Every outcome but `IN_PLAY` is terminal.
#[allow(non_camel_case_types)]
#[derive(Copy, Clone, PartialEq, Eq, Structural, Debug)]
pub enum HandOutcome {
    STAND,
    BUST,
    SURRENDER,
    DEALER_BLACKJACK,
    IN_PLAY,
}

impl HandOutcome {
    /// The ordinal of the outcome, from 0 for `STAND` to 4 for `IN_PLAY`.
    pub open spec fn spec_discriminant(self) -> nat {
        match self {
            HandOutcome::STAND => 0,
            HandOutcome::BUST => 1,
            HandOutcome::SURRENDER => 2,
            HandOutcome::DEALER_BLACKJACK => 3,
            HandOutcome::IN_PLAY => 4,
        }
    }

    /// The outcome's name in a log.
    pub open spec fn spec_label(self) -> Seq<char> {
        match self {
            HandOutcome::STAND => "stand"@,
            HandOutcome::BUST => "bust"@,
            HandOutcome::SURRENDER => "surrender"@,
            HandOutcome::DEALER_BLACKJACK => "dealer-blackjack"@,
            HandOutcome::IN_PLAY => "in-play"@,
        }
    }

    /// Whether the outcome is final: anything but `IN_PLAY`.
    pub open spec fn is_terminal(self) -> bool {
        self != HandOutcome::IN_PLAY
    }

    /// All outcomes, in ordinal order.
    pub open spec fn spec_all() -> Seq<HandOutcome> {
        seq![
            HandOutcome::STAND,
            HandOutcome::BUST,
            HandOutcome::SURRENDER,
            HandOutcome::DEALER_BLACKJACK,
            HandOutcome::IN_PLAY,
        ]
    }

    /// All outcomes, in ordinal order.
    pub fn iterator() -> (outcomes: Vec<HandOutcome>)
        ensures
            outcomes@ == HandOutcome::spec_all(),
    {
        let outcomes = vec![
            HandOutcome::STAND,
            HandOutcome::BUST,
            HandOutcome::SURRENDER,
            HandOutcome::DEALER_BLACKJACK,
            HandOutcome::IN_PLAY,
        ];
        assert(outcomes@ =~= HandOutcome::spec_all());
        outcomes
    }

    /// The ordinal.
    pub fn discriminant(&self) -> (d: u8)
        ensures
            d == self.spec_discriminant(),
    {
        match self {
            HandOutcome::STAND => 0,
            HandOutcome::BUST => 1,
            HandOutcome::SURRENDER => 2,
            HandOutcome::DEALER_BLACKJACK => 3,
            HandOutcome::IN_PLAY => 4,
        }
    }

    /// The outcome with the given ordinal; a number that is no ordinal gives
    /// `STAND`.
    pub fn transmute(discrim: u8) -> (outcome: HandOutcome)
        ensures
            discrim <= 4 ==> outcome.spec_discriminant() == discrim,
            discrim > 4 ==> outcome == HandOutcome::STAND,
    {
        match discrim {
            0 => HandOutcome::STAND,
            1 => HandOutcome::BUST,
            2 => HandOutcome::SURRENDER,
            3 => HandOutcome::DEALER_BLACKJACK,
            4 => HandOutcome::IN_PLAY,
            _ => HandOutcome::STAND,
        }
    }

    /// The name of the outcome in a log.
    pub fn _to_string(&self) -> (s: &'static str)
        ensures
            s@ == self.spec_label(),
    {
        match self {
            HandOutcome::STAND => "stand",
            HandOutcome::BUST => "bust",
            HandOutcome::SURRENDER => "surrender",
            HandOutcome::DEALER_BLACKJACK => "dealer-blackjack",
            HandOutcome::IN_PLAY => "in-play",
        }
    }
}

/// The hard total of the cards: the sum of their counting values, every ace
/// taken as 1.
pub open spec fn spec_hard_total(cards: Seq<Card>) -> nat
    decreases cards.len(),
{
    if cards.len() == 0 {
        0
    } else {
        spec_hard_total(cards.drop_last()) + cards.last().rank.spec_value()
    }
}

/// How many of the cards are aces.
pub open spec fn spec_aces(cards: Seq<Card>) -> nat
    decreases cards.len(),
{
    if cards.len() == 0 {
        0
    } else {
        spec_aces(cards.drop_last()) + if cards.last().rank == CardRank::ACE {
            1nat
        } else {
            0nat
        }
    }
}

/// How many aces count as 11 in the soft total of a hand with this hard
/// total and this many aces: as many as fit under 21, and none in a hand that
/// is over 21 whatever its aces count for.
pub open spec fn spec_elevens(hard: nat, aces: nat) -> nat {
    if hard > 21 {
        0
    } else if aces <= (21 - hard) / 10 {
        aces
    } else {
        ((21 - hard) / 10) as nat
    }
}

/// The soft total of the cards: the hard total, and 10 more for each ace that
/// counts as 11.
pub open spec fn spec_soft_total(cards: Seq<Card>) -> nat {
    spec_hard_total(cards) + 10 * spec_elevens(spec_hard_total(cards), spec_aces(cards))
}

/// Two cards make a pair: by counting value where `on_value_match` holds, by
/// rank where it does not.
pub open spec fn spec_is_pair(first: Card, second: Card, on_value_match: bool) -> bool {
    if on_value_match {
        first.rank.spec_value() == second.rank.spec_value()
    } else {
        first.rank == second.rank
    }
}

/// Whether these cards can be split: there are two of them, and they make a
/// pair.
pub open spec fn spec_can_split(cards: Seq<Card>, on_value_match: bool) -> bool {
    cards.len() == 2 && spec_is_pair(cards[0], cards[1], on_value_match)
}

/// Few enough cards that their totals fit a machine word while they are
/// summed with every ace at 11.
pub open spec fn spec_countable(cards: Seq<Card>) -> bool {
    11 * cards.len() <= usize::MAX
}

/// One more card adds its value to the hard total and, if it is an ace, one
/// to the aces.
pub proof fn lemma_totals_push(cards: Seq<Card>, card: Card)
    ensures
        spec_hard_total(cards.push(card)) == spec_hard_total(cards) + card.rank.spec_value(),
        spec_aces(cards.push(card)) == spec_aces(cards) + if card.rank == CardRank::ACE {
            1nat
        } else {
            0nat
        },
{
    assert(cards.push(card).drop_last() =~= cards);
}

/// Every card counts at least 1 and at most 10, and no hand has more aces
/// than cards or than its hard total.
pub proof fn lemma_totals_bounds(cards: Seq<Card>)
    ensures
        cards.len() <= spec_hard_total(cards) <= 10 * cards.len(),
        spec_aces(cards) <= cards.len(),
        spec_hard_total(cards) + 10 * spec_aces(cards) <= 11 * cards.len(),
    decreases cards.len(),
{
    if cards.len() > 0 {
        lemma_totals_bounds(cards.drop_last());
    }
}

/// Only an ace counts less than 2.
pub proof fn lemma_hard_total_min(cards: Seq<Card>)
    ensures
        spec_hard_total(cards) + spec_aces(cards) >= 2 * cards.len(),
    decreases cards.len(),
{
    if cards.len() > 0 {
        lemma_hard_total_min(cards.drop_last());
    }
}

/// A hand has no ace exactly when none of its cards is one.
pub proof fn lemma_aces_zero(cards: Seq<Card>)
    ensures
        spec_aces(cards) == 0 <==> forall|i: int|
            0 <= i < cards.len() ==> cards[i].rank != CardRank::ACE,
    decreases cards.len(),
{
    if cards.len() > 0 {
        lemma_aces_zero(cards.drop_last());
        if spec_aces(cards) == 0 {
            assert forall|i: int| 0 <= i < cards.len() implies cards[i].rank != CardRank::ACE by {
                if i < cards.len() - 1 {
                    assert(cards.drop_last()[i] == cards[i]);
                }
            }
        } else if cards.last().rank != CardRank::ACE {
            let i = choose|i: int|
                0 <= i < cards.drop_last().len() && cards.drop_last()[i].rank == CardRank::ACE;
            assert(cards[i].rank == CardRank::ACE);
        }
    }
}

/// In a hand without an ace the soft total is the hard total.
pub proof fn lemma_soft_equals_hard_without_aces(cards: Seq<Card>)
    requires
        forall|i: int| 0 <= i < cards.len() ==> cards[i].rank != CardRank::ACE,
    ensures
        spec_soft_total(cards) == spec_hard_total(cards),
{
    lemma_aces_zero(cards);
}

/// The soft total is never below the hard total, and above it by at most 10
/// for each ace of the hand. This holds of every hand, so of every hand with
/// an ace.
pub proof fn lemma_soft_total_bounds(cards: Seq<Card>)
    ensures
        spec_hard_total(cards) <= spec_soft_total(cards),
        spec_soft_total(cards) <= spec_hard_total(cards) + 10 * spec_aces(cards),
{
}

/// The soft total is the best total of the hand. It is the hard total with
/// some of the aces counted as 11; it is over 21 only where the hard total
/// is; and of all totals that the hand can make by counting `elevens` of its
/// aces as 11, none that stays within 21 is above it.
pub proof fn lemma_soft_total_is_best(cards: Seq<Card>, elevens: nat)
    requires
        elevens <= spec_aces(cards),
    ensures
        spec_elevens(spec_hard_total(cards), spec_aces(cards)) <= spec_aces(cards),
        spec_soft_total(cards) > 21 <==> spec_hard_total(cards) > 21,
        spec_hard_total(cards) + 10 * elevens <= 21 ==> spec_hard_total(cards) + 10 * elevens
            <= spec_soft_total(cards),
{
}

/// A player's hand as mathematics.
pub struct HandView {
    pub cards: Seq<Card>,
    pub from_split: bool,
    pub bet: u32,
    pub outcome: HandOutcome,
}

impl HandView {
    /// The hard total of the hand: every ace counts 1.
    pub open spec fn hard_count(self) -> nat {
        spec_hard_total(self.cards)
    }

    /// The number of aces in the hand.
    pub open spec fn aces_count(self) -> nat {
        spec_aces(self.cards)
    }

    /// The soft total of the hand: as many aces count 11 as fit within 21.
    pub open spec fn soft_count(self) -> nat {
        spec_soft_total(self.cards)
    }

    /// The total that the hand shows and is compared by: its soft total.
    pub open spec fn count(self) -> nat {
        self.soft_count()
    }

    /// Whether the hand is bust: its total is over 21.
    pub open spec fn is_bust(self) -> bool {
        self.soft_count() > 21
    }

    /// A natural: 21 on the two cards of the deal. A hand that came out of a
    /// split has none.
    pub open spec fn is_natural(self) -> bool {
        self.cards.len() == 2 && !self.from_split && self.soft_count() == 21
    }

    /// Whether the hand can be split: it has two cards, and they make a pair.
    pub open spec fn can_split(self, on_value_match: bool) -> bool {
        spec_can_split(self.cards, on_value_match)
    }

    /// Whether the hand is over: it is no longer in play.
    pub open spec fn is_hand_over(self) -> bool {
        self.outcome.is_terminal()
    }

    /// A hand in play after the player stood on it.
    pub open spec fn stand(self) -> HandView {
        HandView { outcome: HandOutcome::STAND, ..self }
    }

    /// A hand in play after the player surrendered it: half the bet is taken
    /// back.
    pub open spec fn surrender(self) -> HandView {
        HandView { outcome: HandOutcome::SURRENDER, bet: self.bet / 2, ..self }
    }

    /// A hand in play after the player doubled down and got this card: the
    /// bet is doubled, and the hand stands whatever the card brought.
    pub open spec fn double_down(self, card: Card) -> HandView {
        HandView {
            cards: self.cards.push(card),
            bet: (self.bet * 2) as u32,
            outcome: HandOutcome::STAND,
            ..self
        }
    }

    /// A hand in play after the player took this card: bust if the card
    /// brought it over 21, else in play.
    pub open spec fn hit(self, card: Card) -> HandView {
        HandView {
            cards: self.cards.push(card),
            outcome: if spec_soft_total(self.cards.push(card)) > 21 {
                HandOutcome::BUST
            } else {
                HandOutcome::IN_PLAY
            },
            ..self
        }
    }
}

/// The hard total of the cards.
fn hard_total(cards: &Vec<Card>) -> (total: usize)
    requires
        spec_countable(cards@),
    ensures
        total == spec_hard_total(cards@),
{
    let mut total: usize = 0;
    let mut i: usize = 0;
    while i < cards.len()
        invariant
            i <= cards@.len(),
            spec_countable(cards@),
            total == spec_hard_total(cards@.take(i as int)),
        decreases cards@.len() - i,
    {
        proof {
            lemma_totals_push(cards@.take(i as int), cards@[i as int]);
            assert(cards@.take(i as int).push(cards@[i as int]) =~= cards@.take(i + 1));
            lemma_totals_bounds(cards@.take(i + 1));
        }
        total += cards[i].rank.value();
        i += 1;
    }
    assert(cards@.take(i as int) =~= cards@);
    total
}

/// The number of aces among the cards.
fn aces(cards: &Vec<Card>) -> (count: usize)
    ensures
        count == spec_aces(cards@),
{
    let mut count: usize = 0;
    let mut i: usize = 0;
    while i < cards.len()
        invariant
            i <= cards@.len(),
            count == spec_aces(cards@.take(i as int)),
        decreases cards@.len() - i,
    {
        proof {
            lemma_totals_push(cards@.take(i as int), cards@[i as int]);
            assert(cards@.take(i as int).push(cards@[i as int]) =~= cards@.take(i + 1));
            lemma_totals_bounds(cards@.take(i + 1));
        }
        if cards[i].rank == CardRank::ACE {
            count += 1;
        }
        i += 1;
    }
    assert(cards@.take(i as int) =~= cards@);
    count
}

/// The soft total of the cards: every ace is first counted as 11; then, as
/// long as the total is over 21 and an ace is left at 11, one ace more is
/// taken back to 1.
fn soft_total(cards: &Vec<Card>) -> (total: usize)
    requires
        spec_countable(cards@),
    ensures
        total == spec_soft_total(cards@),
{
    let mut soft_count: usize = 0;
    let mut aces_count: usize = 0;
    let mut i: usize = 0;
    while i < cards.len()
        invariant
            i <= cards@.len(),
            spec_countable(cards@),
            aces_count == spec_aces(cards@.take(i as int)),
            soft_count == spec_hard_total(cards@.take(i as int)) + 10 * aces_count,
        decreases cards@.len() - i,
    {
        proof {
            lemma_totals_push(cards@.take(i as int), cards@[i as int]);
            assert(cards@.take(i as int).push(cards@[i as int]) =~= cards@.take(i + 1));
            lemma_totals_bounds(cards@.take(i + 1));
        }
        if cards[i].rank == CardRank::ACE {
            soft_count += 11;
            aces_count += 1;
        } else {
            soft_count += cards[i].rank.value();
        }
        i += 1;
    }
    assert(cards@.take(i as int) =~= cards@);
    let ghost hard = spec_hard_total(cards@);
    let mut converted: usize = 0;
    while converted < aces_count && soft_count > 21
        invariant
            converted <= aces_count,
            aces_count == spec_aces(cards@),
            hard == spec_hard_total(cards@),
            soft_count == hard + 10 * (aces_count - converted),
            converted > 0 ==> soft_count + 10 > 21,
        decreases aces_count - converted,
    {
        soft_count -= 10;
        converted += 1;
    }
    soft_count
}

/// Whether the two cards make a pair under the given policy.
fn is_pair(first: &Card, second: &Card, on_value_match: bool) -> (pair: bool)
    ensures
        pair == spec_is_pair(*first, *second, on_value_match),
{
    if on_value_match {
        first.rank.value() == second.rank.value()
    } else {
        first.rank == second.rank
    }
}

/// Whether an outcome is terminal.
fn is_over(outcome: HandOutcome) -> (over: bool)
    ensures
        over == outcome.is_terminal(),
{
    match outcome {
        HandOutcome::STAND => true,
        HandOutcome::BUST => true,
        HandOutcome::SURRENDER => true,
        HandOutcome::DEALER_BLACKJACK => true,
        HandOutcome::IN_PLAY => false,
    }
}

/// One hand of a player: its cards in the order dealt, whether it came out
/// of a split, the wager on it, and how it stands.
pub struct PlayerHand {
    pub cards: Vec<Card>,
    pub from_split: bool,
    pub bet: u32,
    pub outcome: HandOutcome,
}

impl View for PlayerHand {
    type V = HandView;

    open spec fn view(&self) -> HandView {
        HandView {
            cards: self.cards@,
            from_split: self.from_split,
            bet: self.bet,
            outcome: self.outcome,
        }
    }
}

impl PlayerHand {
    /// The hand is small enough to be counted in machine words.
    pub open spec fn wf(&self) -> bool {
        spec_countable(self.cards@)
    }

    /// An empty hand in play.
    pub fn create(from_split: bool, bet: u32) -> (hand: PlayerHand)
        ensures
            hand.wf(),
            hand@ == (HandView {
                cards: Seq::empty(),
                from_split: from_split,
                bet: bet,
                outcome: HandOutcome::IN_PLAY,
            }),
    {
        PlayerHand {
            cards: Vec::new(),
            from_split: from_split,
            bet: bet,
            outcome: HandOutcome::IN_PLAY,
        }
    }

    /// The number of cards in the hand.
    pub fn num_cards(&self) -> (n: usize)
        ensures
            n == self@.cards.len(),
    {
        self.cards.len()
    }

    /// Puts one more card at the end of the hand.
    pub fn add_card(&mut self, card: &Card)
        ensures
            final(self)@ == (HandView { cards: old(self)@.cards.push(*card), ..old(self)@ }),
    {
        self.cards.push(*card);
    }

    /// Whether the hand came out of a split.
    pub fn is_from_split(&self) -> (from_split: bool)
        ensures
            from_split == self@.from_split,
    {
        self.from_split
    }

    /// The card at `hand_index`, counted from the first card dealt.
    pub fn get_card(&self, hand_index: usize) -> (card: Card)
        requires
            hand_index < self@.cards.len(),
        ensures
            card == self@.cards[hand_index as int],
    {
        self.cards[hand_index]
    }

    /// The number of aces in the hand.
    pub fn aces_count(&self) -> (count: usize)
        ensures
            count == self@.aces_count(),
    {
        aces(&self.cards)
    }

    /// The hard total of the hand: every ace counts 1.
    pub fn hard_count(&self) -> (count: usize)
        requires
            self.wf(),
        ensures
            count == self@.hard_count(),
    {
        hard_total(&self.cards)
    }

    /// The soft total of the hand: as many aces count 11 as fit within 21.
    pub fn soft_count(&self) -> (count: usize)
        requires
            self.wf(),
        ensures
            count == self@.soft_count(),
    {
        soft_total(&self.cards)
    }

    /// The total of the hand, which is its soft total.
    pub fn count(&self) -> (count: usize)
        requires
            self.wf(),
        ensures
            count == self@.count(),
            count == self@.soft_count(),
    {
        self.soft_count()
    }

    /// Whether the hand is bust: its total is over 21.
    pub fn is_bust(&self) -> (bust: bool)
        requires
            self.wf(),
        ensures
            bust == self@.is_bust(),
            bust <==> self@.soft_count() > 21,
    {
        self.soft_count() > 21
    }

    /// Whether the hand was surrendered.
    pub fn is_surrender(&self) -> (surrender: bool)
        ensures
            surrender == (self@.outcome == HandOutcome::SURRENDER),
    {
        self.outcome == HandOutcome::SURRENDER
    }

    /// Whether the hand is a natural.
    pub fn is_natural(&self) -> (natural: bool)
        requires
            self.wf(),
        ensures
            natural == self@.is_natural(),
            natural <==> self@.cards.len() == 2 && !self@.from_split && self@.count() == 21,
    {
        if !self.from_split {
            if self.num_cards() == 2 {
                if self.soft_count() == 21 {
                    return true;
                }
            }
        }
        false
    }

    /// Whether the hand can be split under the standard rules. The limit on
    /// the number of splits is not looked at here: the wager's hands know it.
    pub fn can_split(&self) -> (split: bool)
        ensures
            split == self@.can_split(SPLIT_ON_VALUE_MATCH),
    {
        if self.num_cards() == 2 {
            let card1 = self.get_card(0);
            let card2 = self.get_card(1);
            return is_pair(&card1, &card2, SPLIT_ON_VALUE_MATCH);
        }
        false
    }

    /// Whether the hand can be split under the given rules.
    pub fn can_split_with_rules(&self, rules: &HouseRules) -> (split: bool)
        ensures
            split == self@.can_split(rules@.split_on_value_match),
    {
        if self.num_cards() == 2 {
            let card1 = self.get_card(0);
            let card2 = self.get_card(1);
            return is_pair(&card1, &card2, rules.split_on_value_match);
        }
        false
    }

    /// Whether the hand is over: it is no longer in play.
    pub fn is_hand_over(&self) -> (over: bool)
        ensures
            over == self@.is_hand_over(),
            over <==> self@.outcome != HandOutcome::IN_PLAY,
    {
        is_over(self.outcome)
    }

    /// The player stands on the hand, which is in play.
    pub fn stand(&mut self)
        requires
            !old(self)@.is_hand_over(),
        ensures
            final(self)@ == old(self)@.stand(),
    {
        self.outcome = HandOutcome::STAND;
    }

    /// The player surrenders the hand, which is in play, and takes back half
    /// the bet.
    pub fn surrender(&mut self)
        requires
            !old(self)@.is_hand_over(),
        ensures
            final(self)@ == old(self)@.surrender(),
    {
        self.outcome = HandOutcome::SURRENDER;
        self.bet = self.bet / 2;
    }

    /// The player doubles the bet on the hand, which is in play, takes this
    /// one card and stands.
    pub fn double_down(&mut self, card: &Card)
        requires
            !old(self)@.is_hand_over(),
            old(self)@.bet * 2 <= u32::MAX,
        ensures
            final(self)@ == old(self)@.double_down(*card),
    {
        self.cards.push(*card);
        self.bet = self.bet * 2;
        self.outcome = HandOutcome::STAND;
    }

    /// The player takes this card on the hand, which is in play. The hand is
    /// bust if that brings it over 21, and stays in play if not.
    pub fn hit(&mut self, card: &Card)
        requires
            !old(self)@.is_hand_over(),
            spec_countable(old(self)@.cards.push(*card)),
        ensures
            final(self)@ == old(self)@.hit(*card),
    {
        self.cards.push(*card);
        let hand_total: usize = self.count();
        if hand_total > 21 {
            self.outcome = HandOutcome::BUST;
        } else {
            self.outcome = HandOutcome::IN_PLAY;
        }
    }
}

/// The dealer's hand as mathematics.
pub struct DealerHandView {
    pub cards: Seq<Card>,
    pub outcome: HandOutcome,
}

impl DealerHandView {
    /// The hard total of the hand: every ace counts 1.
    pub open spec fn hard_count(self) -> nat {
        spec_hard_total(self.cards)
    }

    /// The soft total of the hand: as many aces count 11 as fit within 21.
    pub open spec fn soft_count(self) -> nat {
        spec_soft_total(self.cards)
    }

    pub open spec fn count(self) -> nat {
        self.soft_count()
    }

    /// Whether the hand is bust: its total is over 21.
    pub open spec fn is_bust(self) -> bool {
        self.soft_count() > 21
    }

    /// A natural: 21 on the two cards of the deal.
    pub open spec fn is_natural(self) -> bool {
        self.cards.len() == 2 && self.soft_count() == 21
    }

    /// Whether the hand is over: it is no longer in play.
    pub open spec fn is_hand_over(self) -> bool {
        self.outcome.is_terminal()
    }

    /// Whether the hand is played by its soft total: an ace counts as 11 in
    /// it, and it is not over 21.
    pub open spec fn is_soft(self) -> bool {
        self.hard_count() < self.soft_count() <= 21
    }

    /// Whether the dealer has to draw: on a soft hand while its total is
    /// below the one the rules name for soft hands, on any other hand while
    /// its hard total is not above the one they name for hard hands.
    pub open spec fn must_hit(self, rules: HouseRulesView) -> bool {
        if self.is_soft() {
            self.soft_count() < rules.dealer_hits_soft_on
        } else {
            self.hard_count() <= rules.dealer_hits_hard_on
        }
    }

    /// A hand in play after the dealer drew this card: bust if the card
    /// brought it over 21.
    pub open spec fn hit(self, card: Card) -> DealerHandView {
        DealerHandView {
            cards: self.cards.push(card),
            outcome: if spec_soft_total(self.cards.push(card)) > 21 {
                HandOutcome::BUST
            } else {
                self.outcome
            },
        }
    }

    /// A hand in play after the dealer stopped drawing: it stands, and is
    /// bust if it is over 21.
    pub open spec fn stand(self) -> DealerHandView {
        DealerHandView {
            outcome: if self.soft_count() > 21 {
                HandOutcome::BUST
            } else {
                HandOutcome::STAND
            },
            ..self
        }
    }
}

/// The dealer's hand: its cards in the order dealt, and how it stands.
pub struct DealerHand {
    pub cards: Vec<Card>,
    pub outcome: HandOutcome,
}

impl View for DealerHand {
    type V = DealerHandView;

    open spec fn view(&self) -> DealerHandView {
        DealerHandView { cards: self.cards@, outcome: self.outcome }
    }
}

impl DealerHand {
    /// The hand is small enough to be counted in machine words.
    pub open spec fn wf(&self) -> bool {
        spec_countable(self.cards@)
    }

    /// An empty hand in play.
    pub fn create() -> (hand: DealerHand)
        ensures
            hand.wf(),
            hand@ == (DealerHandView { cards: Seq::empty(), outcome: HandOutcome::IN_PLAY }),
    {
        DealerHand { cards: Vec::new(), outcome: HandOutcome::IN_PLAY }
    }

    /// The number of cards in the hand.
    pub fn num_cards(&self) -> (n: usize)
        ensures
            n == self@.cards.len(),
    {
        self.cards.len()
    }

    /// Puts one more card at the end of the hand.
    pub fn add_card(&mut self, card: &Card)
        ensures
            final(self)@ == (DealerHandView {
                cards: old(self)@.cards.push(*card),
                ..old(self)@
            }),
    {
        self.cards.push(*card);
    }

    /// The hard total of the hand: every ace counts 1.
    pub fn hard_count(&self) -> (count: usize)
        requires
            self.wf(),
        ensures
            count == self@.hard_count(),
    {
        hard_total(&self.cards)
    }

    /// The soft total of the hand: as many aces count 11 as fit within 21.
    pub fn soft_count(&self) -> (count: usize)
        requires
            self.wf(),
        ensures
            count == self@.soft_count(),
    {
        soft_total(&self.cards)
    }

    /// The total of the hand, which is its soft total.
    pub fn count(&self) -> (count: usize)
        requires
            self.wf(),
        ensures
            count == self@.count(),
            count == self@.soft_count(),
    {
        self.soft_count()
    }

    /// Whether the hand is bust: its total is over 21.
    pub fn is_bust(&self) -> (bust: bool)
        requires
            self.wf(),
        ensures
            bust == self@.is_bust(),
            bust <==> self@.soft_count() > 21,
    {
        self.soft_count() > 21
    }

    /// Whether the hand is a natural.
    pub fn is_natural(&self) -> (natural: bool)
        requires
            self.wf(),
        ensures
            natural == self@.is_natural(),
    {
        if self.num_cards() == 2 {
            if self.soft_count() == 21 {
                return true;
            }
        }
        false
    }

    /// Whether the hand is over: it is no longer in play.
    pub fn is_hand_over(&self) -> (over: bool)
        ensures
            over == self@.is_hand_over(),
            over <==> self@.outcome != HandOutcome::IN_PLAY,
    {
        is_over(self.outcome)
    }

    /// Whether the dealer has to draw under the given rules.
    pub fn must_hit(&self, rules: &HouseRules) -> (hit: bool)
        requires
            self.wf(),
        ensures
            hit == self@.must_hit(rules@),
    {
        let hard_count: usize = self.hard_count();
        let soft_count: usize = self.soft_count();
        let use_soft_count: bool = hard_count < soft_count && soft_count <= 21;
        if use_soft_count {
            soft_count < rules.dealer_hits_soft_on
        } else {
            hard_count <= rules.dealer_hits_hard_on
        }
    }

    /// The dealer draws this card to the hand, which is in play. The hand is
    /// bust if that brings it over 21.
    pub fn hit(&mut self, card: &Card)
        requires
            !old(self)@.is_hand_over(),
            spec_countable(old(self)@.cards.push(*card)),
        ensures
            final(self)@ == old(self)@.hit(*card),
    {
        self.cards.push(*card);
        if self.count() > 21 {
            self.outcome = HandOutcome::BUST;
        }
    }

    /// The dealer stops drawing to the hand, which is in play. The hand
    /// stands, and is bust if it is over 21.
    pub fn stand(&mut self)
        requires
            !old(self)@.is_hand_over(),
            old(self).wf(),
        ensures
            final(self)@ == old(self)@.stand(),
    {
        self.outcome = HandOutcome::STAND;
        if self.count() > 21 {
            self.outcome = HandOutcome::BUST;
        }
    }
}

/// The hands of one wager as mathematics: the hand that was dealt and those
/// split off it, in the order in which they came to be, and the most hands
/// that there may be.
pub struct MasterHandView {
    pub hands_limit: nat,
    pub hands: Seq<HandView>,
}

impl MasterHandView {
    /// Whether the hand at `hand_index` may be split: there is room for one
    /// more hand, and the hand is a pair.
    pub open spec fn can_split(self, hand_index: int, on_value_match: bool) -> bool {
        self.hands.len() < self.hands_limit && self.hands[hand_index].can_split(on_value_match)
    }

    /// The hands after the one at `hand_index` was split and the two cards
    /// were dealt to the halves. The hand keeps its first card and gets
    /// `cards_to_add[0]`; a new hand at the end gets the second card and
    /// `cards_to_add[1]`. Both come out of a split, carry the wager of the
    /// hand that was split, and are in play.
    pub open spec fn split(self, hand_index: int, cards_to_add: Seq<Card>) -> MasterHandView {
        let hand = self.hands[hand_index];
        MasterHandView {
            hands_limit: self.hands_limit,
            hands: self.hands.update(
                hand_index,
                HandView {
                    cards: seq![hand.cards[0], cards_to_add[0]],
                    from_split: true,
                    bet: hand.bet,
                    outcome: HandOutcome::IN_PLAY,
                },
            ).push(
                HandView {
                    cards: seq![hand.cards[1], cards_to_add[1]],
                    from_split: true,
                    bet: hand.bet,
                    outcome: HandOutcome::IN_PLAY,
                },
            ),
        }
    }
}

/// The hands that one wager has fanned out to, and the limit on their
/// number.
#[allow(non_snake_case)]
pub struct PlayerMasterHand {
    pub HANDS_LIMIT: usize,
    pub hands: Vec<PlayerHand>,
}

impl View for PlayerMasterHand {
    type V = MasterHandView;

    open spec fn view(&self) -> MasterHandView {
        MasterHandView {
            hands_limit: self.HANDS_LIMIT as nat,
            hands: self.hands@.map_values(|hand: PlayerHand| hand@),
        }
    }
}

impl PlayerMasterHand {
    /// Every hand is small enough to be counted in machine words.
    pub open spec fn wf(&self) -> bool {
        forall|i: int| 0 <= i < self.hands@.len() ==> (#[trigger] self.hands@[i]).wf()
    }

    /// No hands yet, and the limit of the standard rules.
    pub fn create() -> (master_hand: PlayerMasterHand)
        ensures
            master_hand.wf(),
            master_hand@ == (MasterHandView {
                hands_limit: SPLITS_PER_HAND as nat + 1,
                hands: Seq::empty(),
            }),
            master_hand.hands@.len() == 0,
    {
        let master_hand = PlayerMasterHand { hands: Vec::new(), HANDS_LIMIT: SPLITS_PER_HAND + 1 };
        assert(master_hand@.hands =~= Seq::empty());
        master_hand
    }

    /// No hands yet, and the limit of the given rules.
    pub fn create_with_rules(rules: &HouseRules) -> (master_hand: PlayerMasterHand)
        requires
            rules.wf(),
        ensures
            master_hand.wf(),
            master_hand@ == (MasterHandView {
                hands_limit: rules@.hands_limit(),
                hands: Seq::empty(),
            }),
            master_hand.hands@.len() == 0,
    {
        let master_hand = PlayerMasterHand {
            hands: Vec::new(),
            HANDS_LIMIT: rules.splits_per_hand + 1,
        };
        assert(master_hand@.hands =~= Seq::empty());
        master_hand
    }

    /// The number of hands that the wager has fanned out to.
    pub fn num_hands(&self) -> (n: usize)
        ensures
            n == self@.hands.len(),
    {
        self.hands.len()
    }

    /// Opens the wager: one empty hand in play, not out of a split, with the
    /// bet on it.
    pub fn add_start_hand(&mut self, bet: u32)
        ensures
            final(self)@ == (MasterHandView {
                hands: old(self)@.hands.push(
                    HandView {
                        cards: Seq::empty(),
                        from_split: false,
                        bet: bet,
                        outcome: HandOutcome::IN_PLAY,
                    },
                ),
                ..old(self)@
            }),
            final(self).hands@.len() == old(self).hands@.len() + 1,
            old(self).wf() ==> final(self).wf(),
    {
        let from_split: bool = false;
        let player_hand = PlayerHand::create(from_split, bet);
        self.hands.push(player_hand);
        assert(self@.hands =~= old(self)@.hands.push(player_hand@));
    }

    /// Whether the hand at `hand_index` may be split under the standard
    /// rules. Where the wager has no room for another hand, the answer is no
    /// for any index.
    pub fn can_split(&self, hand_index: usize) -> (split: bool)
        requires
            self@.hands.len() < self@.hands_limit ==> hand_index < self@.hands.len(),
        ensures
            split == self@.can_split(hand_index as int, SPLIT_ON_VALUE_MATCH),
    {
        if self.num_hands() < self.HANDS_LIMIT {
            let player_hand = &self.hands[hand_index];
            if player_hand.can_split() {
                return true;
            }
        }
        false
    }

    /// Whether the hand at `hand_index` may be split under the given rules.
    pub fn can_split_with_rules(&self, hand_index: usize, rules: &HouseRules) -> (split: bool)
        requires
            self@.hands.len() < self@.hands_limit ==> hand_index < self@.hands.len(),
        ensures
            split == self@.can_split(hand_index as int, rules@.split_on_value_match),
    {
        if self.num_hands() < self.HANDS_LIMIT {
            let player_hand = &self.hands[hand_index];
            if player_hand.can_split_with_rules(rules) {
                return true;
            }
        }
        false
    }

    /// Splits the hand at `hand_index` and deals one of the two cards to each
    /// half. Returns the index of the new hand, which is the number of hands
    /// before the split.
    ///
    /// The hand has to be one that `can_split` accepts under the rules in
    /// force. Under either policy that is a hand of two cards that count the
    /// same, with room left for one more hand.
    pub fn split_hand(&mut self, hand_index: usize, cards_to_add: [Card; 2]) -> (new_hand_index:
        usize)
        requires
            hand_index < old(self)@.hands.len(),
            old(self)@.can_split(hand_index as int, true),
        ensures
            new_hand_index == old(self)@.hands.len(),
            final(self)@ == old(self)@.split(hand_index as int, cards_to_add@),
            final(self).hands@.len() == old(self).hands@.len() + 1,
            old(self).wf() ==> final(self).wf(),
    {
        let card1 = self.hands[hand_index].cards[0];
        let card2 = self.hands[hand_index].cards[1];
        let bet = self.hands[hand_index].bet;

        let hand = &mut self.hands[hand_index];
        hand.cards.clear();
        hand.cards.push(card1);
        hand.cards.push(cards_to_add[0]);
        hand.from_split = true;
        hand.outcome = HandOutcome::IN_PLAY;

        let mut new_cards: Vec<Card> = Vec::new();
        new_cards.push(card2);
        new_cards.push(cards_to_add[1]);
        let new_hand = PlayerHand {
            cards: new_cards,
            from_split: true,
            bet: bet,
            outcome: HandOutcome::IN_PLAY,
        };

        let new_hand_index = self.num_hands();
        self.hands.push(new_hand);
        proof {
            let after = old(self)@.split(hand_index as int, cards_to_add@).hands;
            assert(self.hands@[hand_index as int]@.cards =~= after[hand_index as int].cards);
            assert(self.hands@[new_hand_index as int]@.cards =~= after[new_hand_index as int].cards);
            assert(self@.hands =~= after);
        }
        new_hand_index
    }
}

} // verus!
