//! Round-robin fixture lists: every pair of competitors meets once, and the
//! meetings are packed into rounds that fit the courts at hand.
//!
//! - `seating` is the model of the circle method: seats, ring and queues.
//! - `pairing` lists the games, `rounds` packs them into rounds, and
//!   `schedule` puts the two together into the fixture list.
//! - `meetings` proves what the list of games promises: who meets whom, and
//!   how often. `counting` holds the counting lemmas it rests on.
//! - `names`, `roster`, `named` and `table` serve those who show the fixture
//!   list: display names, the list of names read from a text, the fixture
//!   list by name, and the rows of the table.

pub mod counting;
pub mod meetings;
pub mod named;
pub mod names;
pub mod pairing;
pub mod roster;
pub mod rounds;
pub mod schedule;
pub mod seating;
pub mod table;
