//! A blackjack engine: card and hand arithmetic, the split mechanics of a
//! wagered hand, the basic-strategy tables, the resolver that turns a table
//! cell into the action a player takes, and a table that plays rounds by
//! that strategy and keeps the books.

pub mod cards;
pub mod game;
pub mod hand;
pub mod player;
pub mod rules;
pub mod strategy;
