//! The table: a shoe, the players of the round, what each player has won and
//! lost so far, and the round itself.

use vstd::prelude::*;
use vstd::string::*;

use crate::cards::{create_shoe, shuffle_shoe, spec_unshuffled_shoe, Card, CardRank};
use crate::hand::{HandOutcome, HandView, MasterHandView};
use crate::player::{Player, PlayerView};
use crate::rules::DECKS_IN_SHOE;

pub mod deal;
pub mod round;
pub mod settle;
pub mod turns;

verus! {

/// What a player has won and lost over the rounds played.
#[derive(Copy, Clone, PartialEq, Eq, Structural, Debug)]
pub struct BlackJackPlayerResults {
    pub hands_played: u64,
    pub hands_won: u64,
    pub hands_lost: u64,
    pub hands_pushed: u64,
    pub proceeds: i64,
}

impl BlackJackPlayerResults {
    /// Nothing played yet.
    pub fn create() -> (results: BlackJackPlayerResults)
        ensures
            results == (BlackJackPlayerResults {
                hands_played: 0,
                hands_won: 0,
                hands_lost: 0,
                hands_pushed: 0,
                proceeds: 0,
            }),
    {
        BlackJackPlayerResults {
            hands_played: 0,
            hands_won: 0,
            hands_lost: 0,
            hands_pushed: 0,
            proceeds: 0,
        }
    }

    /// The counters can take `hands` more hands without leaving their types.
    pub open spec fn has_room(self, hands: nat) -> bool {
        &&& self.hands_played + hands <= u64::MAX
        &&& self.hands_won + hands <= u64::MAX
        &&& self.hands_lost + hands <= u64::MAX
        &&& self.hands_pushed + hands <= u64::MAX
        &&& i64::MIN <= self.proceeds - hands * 0x8000_0000
        &&& self.proceeds + hands * 0x8000_0000 <= i64::MAX
    }

    /// The results after one more hand that ended with `result`: won if it
    /// is above zero, lost if below, pushed if zero.
    pub open spec fn record(self, result: i32) -> BlackJackPlayerResults {
        BlackJackPlayerResults {
            hands_played: (self.hands_played + 1) as u64,
            hands_won: if result > 0 {
                (self.hands_won + 1) as u64
            } else {
                self.hands_won
            },
            hands_lost: if result < 0 {
                (self.hands_lost + 1) as u64
            } else {
                self.hands_lost
            },
            hands_pushed: if result == 0 {
                (self.hands_pushed + 1) as u64
            } else {
                self.hands_pushed
            },
            proceeds: (self.proceeds + result) as i64,
        }
    }
}

/// How often the special plays came up over the rounds played.
#[derive(Copy, Clone, PartialEq, Eq, Structural, Debug)]
pub struct BlackJackStats {
    pub double_down_count: u64,
    pub surrender_count: u64,
    pub split_count: u64,
    pub aces_split: u64,
}

impl BlackJackStats {
    /// Nothing counted yet.
    pub fn create() -> (stats: BlackJackStats)
        ensures
            stats == (BlackJackStats {
                double_down_count: 0,
                surrender_count: 0,
                split_count: 0,
                aces_split: 0,
            }),
    {
        BlackJackStats { double_down_count: 0, surrender_count: 0, split_count: 0, aces_split: 0 }
    }

    /// The counters can take `hands` more hands without leaving their type.
    pub open spec fn has_room(self, hands: nat) -> bool {
        &&& self.double_down_count + hands <= u64::MAX
        &&& self.surrender_count + hands <= u64::MAX
        &&& self.split_count + hands <= u64::MAX
        &&& self.aces_split + hands <= u64::MAX
    }

    /// The counts after one more settled hand. The hand counts as doubled
    /// down if it has three cards and was settled at twice the initial bet;
    /// as surrendered if that is its outcome; as split off if it is not the
    /// first hand of its wager; as a split of aces if it came out of a split
    /// and starts with an ace.
    pub open spec fn count(self, hand: HandView, hand_index: nat, initial_bet: u32, result: i32)
        -> BlackJackStats {
        BlackJackStats {
            double_down_count: if hand.cards.len() == 3 && initial_bet * 2 == spec_magnitude(
                result,
            ) {
                (self.double_down_count + 1) as u64
            } else {
                self.double_down_count
            },
            surrender_count: if hand.outcome == HandOutcome::SURRENDER {
                (self.surrender_count + 1) as u64
            } else {
                self.surrender_count
            },
            split_count: if hand_index > 0 {
                (self.split_count + 1) as u64
            } else {
                self.split_count
            },
            aces_split: if hand.from_split && hand.cards[0].rank == CardRank::ACE {
                (self.aces_split + 1) as u64
            } else {
                self.aces_split
            },
        }
    }
}

/// The absolute value of a result.
pub open spec fn spec_magnitude(result: i32) -> nat {
    if result < 0 {
        (-result) as nat
    } else {
        result as nat
    }
}

/// The seed of the table's generator.
pub const RNG_SEED: u64 = 42u64;

/// A ChaCha generator with 8 rounds, made from the seed by `rand_core`'s
/// `SeedableRng::seed_from_u64`. Nothing is claimed of the generator.
#[verifier::external_body]
fn seeded_rng(seed: u64) -> rand_chacha::ChaCha8Rng {
    rand::SeedableRng::seed_from_u64(seed)
}

/// The results of the player of one name.
pub struct PlayerRecord {
    pub name: String,
    pub results: BlackJackPlayerResults,
}

/// The table as mathematics. The generator is left out: nothing is known of
/// it.
pub struct BlackJackView {
    pub shoe: Seq<Card>,
    pub shoe_top: nat,
    pub players: Seq<PlayerView>,
    pub results: Seq<(Seq<char>, BlackJackPlayerResults)>,
    pub stats: BlackJackStats,
}

impl BlackJackView {
    /// Whether the table has a hand at these indices: of the players, of
    /// the player's wagers, and of the wager's hands.
    pub open spec fn has_hand(self, player_index: int, master_hand_index: int, hand_index: int)
        -> bool {
        &&& 0 <= player_index < self.players.len()
        &&& 0 <= master_hand_index < self.players[player_index].master_hands.len()
        &&& 0 <= hand_index
            < self.players[player_index].master_hands[master_hand_index].hands.len()
    }

    /// The hand at these indices.
    pub open spec fn hand(self, player_index: int, master_hand_index: int, hand_index: int)
        -> HandView {
        self.players[player_index].master_hands[master_hand_index].hands[hand_index]
    }

    /// Whether the table has a wager at these indices.
    pub open spec fn has_wager(self, player_index: int, master_hand_index: int) -> bool {
        &&& 0 <= player_index < self.players.len()
        &&& 0 <= master_hand_index < self.players[player_index].master_hands.len()
    }

    /// The wager at these indices.
    pub open spec fn wager(self, player_index: int, master_hand_index: int) -> MasterHandView {
        self.players[player_index].master_hands[master_hand_index]
    }
}

/// A blackjack table. The cards of the shoe before `shoe_top` have been
/// dealt. `results` holds one record for each name that has sat at the
/// table, in the order in which the names first came.
pub struct BlackJack {
    pub shoe: Vec<Card>,
    pub shoe_top: usize,
    pub players: Vec<Player>,
    pub results: Vec<PlayerRecord>,
    pub stats: BlackJackStats,
    pub rng: rand_chacha::ChaCha8Rng,
}

impl View for BlackJack {
    type V = BlackJackView;

    open spec fn view(&self) -> BlackJackView {
        BlackJackView {
            shoe: self.shoe@,
            shoe_top: self.shoe_top as nat,
            players: self.players@.map_values(|player: Player| player@),
            results: spec_records(self.results@),
            stats: self.stats,
        }
    }
}

/// The place of a name among the records: the index of the first record of
/// that name, or the number of records if there is none.
pub open spec fn spec_find(results: Seq<(Seq<char>, BlackJackPlayerResults)>, name: Seq<char>)
    -> nat
    decreases results.len(),
{
    if results.len() == 0 {
        0
    } else if results[0].0 == name {
        0
    } else {
        1 + spec_find(results.drop_first(), name)
    }
}

/// The records after a player of that name sat down: a name that has none
/// gets an empty record at the end.
pub open spec fn spec_seat(results: Seq<(Seq<char>, BlackJackPlayerResults)>, name: Seq<char>)
    -> Seq<(Seq<char>, BlackJackPlayerResults)> {
    if spec_find(results, name) < results.len() {
        results
    } else {
        results.push(
            (
                name,
                BlackJackPlayerResults {
                    hands_played: 0,
                    hands_won: 0,
                    hands_lost: 0,
                    hands_pushed: 0,
                    proceeds: 0,
                },
            ),
        )
    }
}

/// The records after the first `count` of the players sat down, one after
/// another.
pub open spec fn spec_seat_all(
    results: Seq<(Seq<char>, BlackJackPlayerResults)>,
    players: Seq<PlayerView>,
    count: nat,
) -> Seq<(Seq<char>, BlackJackPlayerResults)>
    decreases count,
{
    if count == 0 {
        results
    } else {
        spec_seat(spec_seat_all(results, players, (count - 1) as nat), players[count - 1].name)
    }
}

/// The records after a hand of the player of that name ended with `result`.
/// A name without a record changes nothing.
pub open spec fn spec_record(
    results: Seq<(Seq<char>, BlackJackPlayerResults)>,
    name: Seq<char>,
    result: i32,
) -> Seq<(Seq<char>, BlackJackPlayerResults)> {
    let at = spec_find(results, name) as int;
    if at < results.len() {
        results.update(at, (name, results[at].1.record(result)))
    } else {
        results
    }
}

/// Whether no name has two records.
pub open spec fn spec_distinct(results: Seq<(Seq<char>, BlackJackPlayerResults)>) -> bool {
    forall|i: int, j: int|
        0 <= i < j < results.len() ==> (#[trigger] results[i]).0 != (#[trigger] results[j]).0
}

/// `spec_find` finds a record of the name, and no record before it has the
/// name.
pub proof fn lemma_find(results: Seq<(Seq<char>, BlackJackPlayerResults)>, name: Seq<char>)
    ensures
        spec_find(results, name) <= results.len(),
        spec_find(results, name) < results.len() ==> results[spec_find(results, name) as int].0
            == name,
        forall|i: int| 0 <= i < spec_find(results, name) ==> (#[trigger] results[i]).0 != name,
    decreases results.len(),
{
    if results.len() > 0 && results[0].0 != name {
        let rest = results.drop_first();
        lemma_find(rest, name);
        assert forall|i: int| 0 <= i < spec_find(results, name) implies (#[trigger] results[i]).0
            != name by {
            if i > 0 {
                assert(rest[i - 1] == results[i]);
            }
        }
    }
}

/// An index whose record has the name, while no record before it has, is
/// the place of the name; and where no record has the name, its place is the
/// number of records.
pub proof fn lemma_find_is(
    results: Seq<(Seq<char>, BlackJackPlayerResults)>,
    name: Seq<char>,
    at: int,
)
    requires
        0 <= at <= results.len(),
        at < results.len() ==> results[at].0 == name,
        forall|i: int| 0 <= i < at ==> (#[trigger] results[i]).0 != name,
    ensures
        spec_find(results, name) == at,
{
    lemma_find(results, name);
    let found = spec_find(results, name) as int;
    if found < at {
        assert(results[found].0 != name);
    } else if found > at {
        assert(results[at].0 != name);
    }
}

/// Seating a player gives no name a second record.
pub proof fn lemma_seat_distinct(
    results: Seq<(Seq<char>, BlackJackPlayerResults)>,
    name: Seq<char>,
)
    requires
        spec_distinct(results),
    ensures
        spec_distinct(spec_seat(results, name)),
{
    lemma_find(results, name);
    let seated = spec_seat(results, name);
    assert forall|i: int, j: int| 0 <= i < j < seated.len() implies (#[trigger] seated[i]).0 != (
    #[trigger] seated[j]).0 by {
        if j < results.len() {
            assert(results[i].0 != results[j].0);
        } else {
            assert(results[i].0 != name);
        }
    }
}

/// Booking a result gives no name a second record.
pub proof fn lemma_record_distinct(
    results: Seq<(Seq<char>, BlackJackPlayerResults)>,
    name: Seq<char>,
    result: i32,
)
    requires
        spec_distinct(results),
    ensures
        spec_distinct(spec_record(results, name, result)),
{
    lemma_find(results, name);
    let booked = spec_record(results, name, result);
    assert forall|i: int, j: int| 0 <= i < j < booked.len() implies (#[trigger] booked[i]).0 != (
    #[trigger] booked[j]).0 by {
        assert(results[i].0 != results[j].0);
    }
}

/// The records as mathematics: each name with its results.
pub open spec fn spec_records(records: Seq<PlayerRecord>) -> Seq<(Seq<char>, BlackJackPlayerResults)> {
    records.map_values(|record: PlayerRecord| (record.name@, record.results))
}

/// The place of a name among the records.
fn find_record(records: &Vec<PlayerRecord>, name: &String) -> (at: usize)
    ensures
        at == spec_find(spec_records(records@), name@),
        at <= records@.len(),
        at < records@.len() ==> records@[at as int].name@ == name@,
{
    let mut i: usize = 0;
    while i < records.len()
        invariant
            i <= records@.len(),
            forall|j: int| 0 <= j < i ==> (#[trigger] spec_records(records@)[j]).0 != name@,
        decreases records@.len() - i,
    {
        if records[i].name == *name {
            proof {
                lemma_find_is(spec_records(records@), name@, i as int);
            }
            return i;
        }
        i += 1;
    }
    proof {
        lemma_find_is(spec_records(records@), name@, i as int);
    }
    i
}

impl BlackJack {
    /// The table is in order: no card is dealt from beyond the shoe, every
    /// hand on the table is small enough to be counted, and no name has two
    /// records.
    pub open spec fn wf(&self) -> bool {
        &&& self.shoe_top <= self.shoe@.len()
        &&& forall|i: int| 0 <= i < self.players@.len() ==> (#[trigger] self.players@[i]).wf()
        &&& spec_distinct(self@.results)
    }

    /// A table with a shuffled shoe of the standard number of decks, no
    /// players and nothing played.
    pub fn create() -> (blackjack: BlackJack)
        ensures
            blackjack.wf(),
            blackjack@.shoe.to_multiset() == spec_unshuffled_shoe(DECKS_IN_SHOE as nat).to_multiset(),
            blackjack@.shoe.len() == 52 * DECKS_IN_SHOE,
            blackjack@.shoe_top == 0,
            blackjack@.players == Seq::<PlayerView>::empty(),
            blackjack@.results == Seq::<(Seq<char>, BlackJackPlayerResults)>::empty(),
            blackjack@.stats == (BlackJackStats {
                double_down_count: 0,
                surrender_count: 0,
                split_count: 0,
                aces_split: 0,
            }),
    {
        let mut blackjack = BlackJack {
            shoe: create_shoe(DECKS_IN_SHOE),
            shoe_top: 0,
            players: Vec::new(),
            results: Vec::new(),
            stats: BlackJackStats::create(),
            rng: seeded_rng(RNG_SEED),
        };
        blackjack.reshuffle_shoe();
        proof {
            blackjack@.shoe.to_multiset_ensures();
            spec_unshuffled_shoe(DECKS_IN_SHOE as nat).to_multiset_ensures();
            assert(blackjack@.players =~= Seq::<PlayerView>::empty());
            assert(blackjack@.results =~= Seq::<(Seq<char>, BlackJackPlayerResults)>::empty());
        }
        blackjack
    }

    /// The number of players at the table.
    pub fn num_players(&self) -> (n: usize)
        ensures
            n == self@.players.len(),
    {
        self.players.len()
    }

    /// Shuffles the whole shoe and starts dealing from its first card again.
    pub fn reshuffle_shoe(&mut self)
        ensures
            final(self)@.shoe.to_multiset() == old(self)@.shoe.to_multiset(),
            final(self)@.shoe.len() == old(self)@.shoe.len(),
            final(self)@.shoe_top == 0,
            final(self).players == old(self).players,
            final(self).results == old(self).results,
            final(self).stats == old(self).stats,
            old(self).wf() ==> final(self).wf(),
    {
        shuffle_shoe(&mut self.shoe, &mut self.rng);
        self.shoe_top = 0;
        proof {
            self.shoe@.to_multiset_ensures();
            old(self).shoe@.to_multiset_ensures();
        }
    }

    /// Deals the next card of the shoe.
    pub fn get_card_from_shoe(&mut self) -> (card: Card)
        requires
            old(self)@.shoe_top < old(self)@.shoe.len(),
        ensures
            card == old(self)@.shoe[old(self)@.shoe_top as int],
            final(self)@.shoe_top == old(self)@.shoe_top + 1,
            final(self).shoe == old(self).shoe,
            final(self).players == old(self).players,
            final(self).results == old(self).results,
            final(self).stats == old(self).stats,
            old(self).wf() ==> final(self).wf(),
    {
        let card = self.shoe[self.shoe_top];
        assert(self.shoe_top < self.shoe.len());
        self.shoe_top += 1;
        card
    }

    /// Seats the players of the round. A player whose name the table has
    /// not seen gets an empty record; the records of the others stay.
    pub fn set_players_for_game(&mut self, players: Vec<Player>)
        ensures
            final(self).players == players,
            final(self)@.results == spec_seat_all(
                old(self)@.results,
                final(self)@.players,
                players@.len(),
            ),
            old(self).wf() && (forall|i: int|
                0 <= i < players@.len() ==> (#[trigger] players@[i]).wf()) ==> final(self).wf(),
            final(self).shoe == old(self).shoe,
            final(self).shoe_top == old(self).shoe_top,
            final(self).stats == old(self).stats,
    {
        self.players = players;
        let mut p: usize = 0;
        while p < self.players.len()
            invariant
                p <= self.players@.len(),
                self.players == players,
                self.shoe == old(self).shoe,
                self.shoe_top == old(self).shoe_top,
                self.stats == old(self).stats,
                self@.results == spec_seat_all(old(self)@.results, self@.players, p as nat),
                spec_distinct(old(self)@.results) ==> spec_distinct(self@.results),
            decreases self.players@.len() - p,
        {
            let ghost before = self@.results;
            let at = find_record(&self.results, &self.players[p].name);
            let seen_player: bool = at < self.results.len();
            if !seen_player {
                let record = PlayerRecord {
                    name: self.players[p].name.clone(),
                    results: BlackJackPlayerResults::create(),
                };
                self.results.push(record);
            }
            proof {
                assert(self@.players[p as int].name == self.players@[p as int].name@);
                assert(self@.results =~= spec_seat(before, self@.players[p as int].name));
                if spec_distinct(before) {
                    lemma_seat_distinct(before, self@.players[p as int].name);
                }
            }
            p += 1;
        }
    }

    /// Books the result of one settled hand: on the record of the player,
    /// if the table has one under the player's name, and in the counts of
    /// the special plays.
    pub fn add_result(
        &mut self,
        player_index: usize,
        master_hand_index: usize,
        hand_index: usize,
        initial_bet: u32,
        result: i32,
    )
        requires
            old(self)@.has_hand(player_index as int, master_hand_index as int, hand_index as int),
            old(self)@.hand(
                player_index as int,
                master_hand_index as int,
                hand_index as int,
            ).from_split ==> old(self)@.hand(
                player_index as int,
                master_hand_index as int,
                hand_index as int,
            ).cards.len() > 0,
            initial_bet * 2 <= u32::MAX,
            result > i32::MIN,
            old(self).stats.has_room(1),
            forall|i: int|
                0 <= i < old(self)@.results.len() ==> (#[trigger] old(self)@.results[i]).1.has_room(
                    1,
                ),
        ensures
            final(self)@.results == spec_record(
                old(self)@.results,
                old(self)@.players[player_index as int].name,
                result,
            ),
            final(self).stats == old(self).stats.count(
                old(self)@.hand(player_index as int, master_hand_index as int, hand_index as int),
                hand_index as nat,
                initial_bet,
                result,
            ),
            old(self).wf() ==> final(self).wf(),
            final(self).players == old(self).players,
            final(self).shoe == old(self).shoe,
            final(self).shoe_top == old(self).shoe_top,
    {
        proof {
            let player = self.players@[player_index as int];
            let master_hand = player.master_hands@[master_hand_index as int];
            assert(self@.players[player_index as int] == player@);
            assert(player@.master_hands[master_hand_index as int] == master_hand@);
            assert(master_hand@.hands[hand_index as int] == master_hand.hands@[hand_index as int]@);
            if spec_distinct(old(self)@.results) {
                lemma_record_distinct(old(self)@.results, player@.name, result);
            }
        }
        let at = find_record(&self.results, &self.players[player_index].name);
        if at < self.results.len() {
            assert(self@.results[at as int].1 == self.results@[at as int].results);
            let player_results = &mut self.results[at].results;
            player_results.hands_played += 1;
            if result > 0 {
                player_results.hands_won += 1;
            } else if result < 0 {
                player_results.hands_lost += 1;
            } else {
                player_results.hands_pushed += 1;
            }
            player_results.proceeds += result as i64;
        }
        assert(self@.results =~= spec_record(
            old(self)@.results,
            old(self)@.players[player_index as int].name,
            result,
        ));

        let player_hand = &self.players[player_index].master_hands[master_hand_index].hands[hand_index];

        let magnitude: u32 = if result < 0 {
            (-result) as u32
        } else {
            result as u32
        };
        let double_down: bool = player_hand.num_cards() == 3 && initial_bet * 2 == magnitude;
        let surrender: bool = player_hand.outcome == HandOutcome::SURRENDER;
        let splitting_aces: bool = player_hand.from_split && player_hand.cards[0].rank
            == CardRank::ACE;
        if double_down {
            self.stats.double_down_count += 1;
        }
        if surrender {
            self.stats.surrender_count += 1;
        }
        if hand_index > 0 {
            self.stats.split_count += 1;
        }
        if splitting_aces {
            self.stats.aces_split += 1;
        }
    }
}

} // verus!
