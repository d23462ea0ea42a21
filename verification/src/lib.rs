//! Cosmeredle: a daily guessing game over characters of the Cosmere.
//!
//! The library holds the game's rules: reading characters and books out of
//! Coppermind's wikitext, choosing each day's answer, scoring a guess against
//! it, checking credentials, and mapping errors to what a client is told.

use vstd::prelude::*;

pub mod answer;
pub mod backend;
pub mod character;
pub mod error;
pub mod server;
pub mod table;
pub mod text;
pub mod wiki;

pub use character::Character;
pub use error::Error;

verus! {

/// A book of the Cosmere and the series it belongs to, if any.
pub struct Book {
    pub title: String,
    pub series: Option<String>,
}

} // verus!
