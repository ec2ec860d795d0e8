//! Review scheduling for flashcard decks.
//!
//! Users own decks, decks own cards, and cards are reviewed in sessions. A
//! session shows the cards of one deck in an order that is computed when
//! the session starts and kept until it starts anew.
//!
//! - [`scheduler`] computes the order of a session, [`order_laws`] proves
//!   what holds of every such order, and [`stable_sort`] and [`recency`]
//!   hold what both are made of;
//! - [`session`] keeps the orders of the sessions in progress and answers
//!   the requests for a position in one, step by step where the record
//!   store has to be asked;
//! - [`card`] and [`forms`] hold the rows of the record store and the forms
//!   that change them, [`access`] and [`pages`] what a caller may see;
//! - [`chance`] and [`clock`] draw a side and read the time.

pub mod access;
pub mod card;
pub mod chance;
pub mod clock;
pub mod forms;
pub mod order_laws;
pub mod pages;
pub mod recency;
pub mod scheduler;
pub mod session;
pub mod stable_sort;
