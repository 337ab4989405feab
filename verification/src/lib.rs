//! Rules and state of a patience game: a seven-column tableau built down by
//! alternating colour, a stock dealt three cards at a time onto a waste, a
//! free cell that appears once the stock runs out, and four foundations built
//! up by suit from the ace.

pub mod card;
pub mod board;
pub mod rules;
pub mod safe_sorts;
pub mod game;
pub mod laws;
pub mod rule_laws;
