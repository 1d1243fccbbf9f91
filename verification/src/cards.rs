//! Suits, ranks, cards, decks and shoes.

use vstd::prelude::*;
use vstd::string::*;

verus! {

/// The four suits. A suit has a symbol and an ordinal (1 to 4) and plays no
/// part in counting or strategy.
#[allow(non_camel_case_types)]
#[derive(Copy, Clone, PartialEq, Eq, Structural, Hash, Debug)]
pub enum CardSuite {
    HEARTS,
    DIAMONDS,
    SPADES,
    CLUBS,
}

impl CardSuite {
    /// The ordinal of the suit: hearts 1, diamonds 2, spades 3, clubs 4.
    pub open spec fn spec_discriminant(self) -> nat {
        match self {
            CardSuite::HEARTS => 1,
            CardSuite::DIAMONDS => 2,
            CardSuite::SPADES => 3,
            CardSuite::CLUBS => 4,
        }
    }

    /// The suit's symbol: the suit character followed by the variation
    /// selector that asks for its coloured form.
    pub open spec fn spec_symbol(self) -> Seq<char> {
        match self {
            CardSuite::HEARTS => "\u{2665}\u{fe0f}"@,
            CardSuite::DIAMONDS => "\u{2666}\u{fe0f}"@,
            CardSuite::SPADES => "\u{2660}\u{fe0f}"@,
            CardSuite::CLUBS => "\u{2663}\u{fe0f}"@,
        }
    }

    /// All suits, in ordinal order.
    pub open spec fn spec_all() -> Seq<CardSuite> {
        seq![CardSuite::HEARTS, CardSuite::DIAMONDS, CardSuite::SPADES, CardSuite::CLUBS]
    }

    /// All suits, in ordinal order.
    pub fn iterator() -> (suites: Vec<CardSuite>)
        ensures
            suites@ == CardSuite::spec_all(),
    {
        let suites = vec![
            CardSuite::HEARTS,
            CardSuite::DIAMONDS,
            CardSuite::SPADES,
            CardSuite::CLUBS,
        ];
        assert(suites@ =~= CardSuite::spec_all());
        suites
    }

    /// The ordinal.
    pub fn discriminant(&self) -> (d: u8)
        ensures
            d == self.spec_discriminant(),
    {
        match self {
            CardSuite::HEARTS => 1,
            CardSuite::DIAMONDS => 2,
            CardSuite::SPADES => 3,
            CardSuite::CLUBS => 4,
        }
    }

    /// The suit with the given ordinal.
    pub fn transmute(discrim: u8) -> (suite: CardSuite)
        requires
            1 <= discrim <= 4,
        ensures
            suite.spec_discriminant() == discrim,
    {
        if discrim == 1 {
            CardSuite::HEARTS
        } else if discrim == 2 {
            CardSuite::DIAMONDS
        } else if discrim == 3 {
            CardSuite::SPADES
        } else {
            CardSuite::CLUBS
        }
    }

    /// The text that stands for the value.
    pub fn to_string(&self) -> (s: String)
        ensures
            s@ == self.spec_symbol(),
    {
        match self {
            CardSuite::HEARTS => String::from_str("\u{2665}\u{fe0f}"),
            CardSuite::DIAMONDS => String::from_str("\u{2666}\u{fe0f}"),
            CardSuite::SPADES => String::from_str("\u{2660}\u{fe0f}"),
            CardSuite::CLUBS => String::from_str("\u{2663}\u{fe0f}"),
        }
    }
}

/// The thirteen ranks. A rank has an ordinal (ace 1 to king 13), a symbol and
/// a counting value.
#[allow(non_camel_case_types)]
#[derive(Copy, Clone, PartialEq, Eq, Structural, Hash, Debug)]
pub enum CardRank {
    ACE,
    TWO,
    THREE,
    FOUR,
    FIVE,
    SIX,
    SEVEN,
    EIGHT,
    NINE,
    TEN,
    JACK,
    QUEEN,
    KING,
}

impl CardRank {
    /// The ordinal of the rank: ace 1, two 2, and so on to king 13.
    pub open spec fn spec_discriminant(self) -> nat {
        match self {
            CardRank::ACE => 1,
            CardRank::TWO => 2,
            CardRank::THREE => 3,
            CardRank::FOUR => 4,
            CardRank::FIVE => 5,
            CardRank::SIX => 6,
            CardRank::SEVEN => 7,
            CardRank::EIGHT => 8,
            CardRank::NINE => 9,
            CardRank::TEN => 10,
            CardRank::JACK => 11,
            CardRank::QUEEN => 12,
            CardRank::KING => 13,
        }
    }

    /// What the rank counts for in a hand, the ace taken as 1: the ordinal up
    /// to ten, and ten for the three court cards.
    pub open spec fn spec_value(self) -> nat {
        if self.spec_discriminant() <= 10 {
            self.spec_discriminant()
        } else {
            10
        }
    }

    /// The rank's symbol as printed on a card.
    pub open spec fn spec_symbol(self) -> Seq<char> {
        match self {
            CardRank::ACE => "A"@,
            CardRank::TWO => "2"@,
            CardRank::THREE => "3"@,
            CardRank::FOUR => "4"@,
            CardRank::FIVE => "5"@,
            CardRank::SIX => "6"@,
            CardRank::SEVEN => "7"@,
            CardRank::EIGHT => "8"@,
            CardRank::NINE => "9"@,
            CardRank::TEN => "10"@,
            CardRank::JACK => "J"@,
            CardRank::QUEEN => "Q"@,
            CardRank::KING => "K"@,
        }
    }

    /// All ranks, in ordinal order.
    pub open spec fn spec_all() -> Seq<CardRank> {
        seq![
            CardRank::ACE,
            CardRank::TWO,
            CardRank::THREE,
            CardRank::FOUR,
            CardRank::FIVE,
            CardRank::SIX,
            CardRank::SEVEN,
            CardRank::EIGHT,
            CardRank::NINE,
            CardRank::TEN,
            CardRank::JACK,
            CardRank::QUEEN,
            CardRank::KING,
        ]
    }

    /// All ranks, in ordinal order.
    pub fn iterator() -> (ranks: Vec<CardRank>)
        ensures
            ranks@ == CardRank::spec_all(),
    {
        let ranks = vec![
            CardRank::ACE,
            CardRank::TWO,
            CardRank::THREE,
            CardRank::FOUR,
            CardRank::FIVE,
            CardRank::SIX,
            CardRank::SEVEN,
            CardRank::EIGHT,
            CardRank::NINE,
            CardRank::TEN,
            CardRank::JACK,
            CardRank::QUEEN,
            CardRank::KING,
        ];
        assert(ranks@ =~= CardRank::spec_all());
        ranks
    }

    /// The ordinal.
    pub fn discriminant(&self) -> (d: usize)
        ensures
            d == self.spec_discriminant(),
    {
        match self {
            CardRank::ACE => 1,
            CardRank::TWO => 2,
            CardRank::THREE => 3,
            CardRank::FOUR => 4,
            CardRank::FIVE => 5,
            CardRank::SIX => 6,
            CardRank::SEVEN => 7,
            CardRank::EIGHT => 8,
            CardRank::NINE => 9,
            CardRank::TEN => 10,
            CardRank::JACK => 11,
            CardRank::QUEEN => 12,
            CardRank::KING => 13,
        }
    }

    /// The rank with the given ordinal.
    pub fn transmute(discrim: usize) -> (rank: CardRank)
        requires
            1 <= discrim <= 13,
        ensures
            rank.spec_discriminant() == discrim,
    {
        match discrim {
            1 => CardRank::ACE,
            2 => CardRank::TWO,
            3 => CardRank::THREE,
            4 => CardRank::FOUR,
            5 => CardRank::FIVE,
            6 => CardRank::SIX,
            7 => CardRank::SEVEN,
            8 => CardRank::EIGHT,
            9 => CardRank::NINE,
            10 => CardRank::TEN,
            11 => CardRank::JACK,
            12 => CardRank::QUEEN,
            _ => CardRank::KING,
        }
    }

    /// The text that stands for the value.
    pub fn to_string(&self) -> (s: String)
        ensures
            s@ == self.spec_symbol(),
    {
        match self {
            CardRank::ACE => String::from_str("A"),
            CardRank::TWO => String::from_str("2"),
            CardRank::THREE => String::from_str("3"),
            CardRank::FOUR => String::from_str("4"),
            CardRank::FIVE => String::from_str("5"),
            CardRank::SIX => String::from_str("6"),
            CardRank::SEVEN => String::from_str("7"),
            CardRank::EIGHT => String::from_str("8"),
            CardRank::NINE => String::from_str("9"),
            CardRank::TEN => String::from_str("10"),
            CardRank::JACK => String::from_str("J"),
            CardRank::QUEEN => String::from_str("Q"),
            CardRank::KING => String::from_str("K"),
        }
    }

    /// The counting value of the rank, the ace taken as 1.
    pub fn value(&self) -> (v: usize)
        ensures
            v == self.spec_value(),
            1 <= v <= 10,
    {
        let d = self.discriminant();
        if d <= 10 {
            d
        } else {
            10
        }
    }
}

/// A playing card. Two cards are equal when suit and rank are.
#[derive(Copy, Clone, PartialEq, Eq, Structural, Debug)]
pub struct Card {
    pub suite: CardSuite,
    pub rank: CardRank,
}

impl Card {
    /// The card as text: suit symbol, a space, rank symbol.
    pub open spec fn spec_text(self) -> Seq<char> {
        self.suite.spec_symbol() + " "@ + self.rank.spec_symbol()
    }

    /// The text that stands for the value.
    pub fn to_string(&self) -> (s: String)
        ensures
            s@ == self.spec_text(),
    {
        let suite_str = self.suite.to_string();
        let rank_str = self.rank.to_string();
        let card_str = suite_str.concat(" ").concat(rank_str.as_str());
        card_str
    }
}

/// One deck in factory order: hearts, diamonds, spades, clubs, and within
/// each suit ace to king.
pub open spec fn spec_unshuffled_deck() -> Seq<Card> {
    Seq::new(
        52,
        |i: int| Card { suite: CardSuite::spec_all()[i / 13], rank: CardRank::spec_all()[i % 13] },
    )
}

/// A shoe of `decks` decks before shuffling: the factory-order deck, repeated.
pub open spec fn spec_unshuffled_shoe(decks: nat) -> Seq<Card> {
    Seq::new(52 * decks, |i: int| spec_unshuffled_deck()[i % 52])
}

/// A fresh deck of 52 cards in factory order.
pub fn create_unshuffle_deck() -> (deck: Vec<Card>)
    ensures
        deck@ == spec_unshuffled_deck(),
{
    let suites = CardSuite::iterator();
    let ranks = CardRank::iterator();
    let mut deck: Vec<Card> = Vec::new();
    let mut s: usize = 0;
    while s < 4
        invariant
            s <= 4,
            suites@ == CardSuite::spec_all(),
            ranks@ == CardRank::spec_all(),
            deck@.len() == 13 * s,
            forall|i: int| 0 <= i < deck@.len() ==> deck@[i] == spec_unshuffled_deck()[i],
        decreases 4 - s,
    {
        let mut r: usize = 0;
        while r < 13
            invariant
                s < 4,
                r <= 13,
                suites@ == CardSuite::spec_all(),
                ranks@ == CardRank::spec_all(),
                deck@.len() == 13 * s + r,
                forall|i: int| 0 <= i < deck@.len() ==> deck@[i] == spec_unshuffled_deck()[i],
            decreases 13 - r,
        {
            deck.push(Card { suite: suites[s], rank: ranks[r] });
            r += 1;
        }
        s += 1;
    }
    assert(deck@ =~= spec_unshuffled_deck());
    deck
}

/// A shoe of `decks_in_shoe` decks, each in factory order, one after another.
pub fn create_shoe(decks_in_shoe: usize) -> (shoe: Vec<Card>)
    ensures
        shoe@ == spec_unshuffled_shoe(decks_in_shoe as nat),
{
    let mut shoe: Vec<Card> = Vec::new();
    let unshuffle_deck = create_unshuffle_deck();
    let mut d: usize = 0;
    while d < decks_in_shoe
        invariant
            d <= decks_in_shoe,
            unshuffle_deck@ == spec_unshuffled_deck(),
            shoe@.len() == 52 * d,
            forall|i: int| 0 <= i < shoe@.len() ==> shoe@[i] == spec_unshuffled_deck()[i % 52],
        decreases decks_in_shoe - d,
    {
        let mut c: usize = 0;
        while c < 52
            invariant
                d < decks_in_shoe,
                c <= 52,
                unshuffle_deck@ == spec_unshuffled_deck(),
                shoe@.len() == 52 * d + c,
                forall|i: int| 0 <= i < shoe@.len() ==> shoe@[i] == spec_unshuffled_deck()[i % 52],
            decreases 52 - c,
        {
            shoe.push(unshuffle_deck[c]);
            c += 1;
        }
        d += 1;
    }
    assert(shoe@ =~= spec_unshuffled_shoe(decks_in_shoe as nat));
    shoe
}

/// The generator that shuffles a shoe. Nothing of its state is visible here.
#[verifier::external_type_specification]
#[verifier::external_body]
pub struct ExChaCha8Rng(rand_chacha::ChaCha8Rng);

/// Shuffles the shoe in place with `rand`'s `SliceRandom::shuffle`, which
/// only ever swaps two elements of the slice: afterwards the shoe holds the
/// cards it held before, each as often as before. Which order comes out
/// depends on the generator and is left open.
#[verifier::external_body]
pub fn shuffle_shoe(shoe: &mut Vec<Card>, rng: &mut rand_chacha::ChaCha8Rng)
    ensures
        final(shoe)@.to_multiset() == old(shoe)@.to_multiset(),
{
    rand::seq::SliceRandom::shuffle(shoe.as_mut_slice(), rng);
}

} // verus!
