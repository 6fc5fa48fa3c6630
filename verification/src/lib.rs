//! A minesweeper game engine.
//!
//! The engine is a rectangular grid of [`cell::Cell`]s owned by a
//! [`field::Field`].  The field places mines, derives the neighbour counts,
//! and evolves under the player's reveal and flag actions until a mine is
//! detonated or every safe cell is open.  Every operation carries a contract
//! describing exactly how it changes the field.

use vstd::prelude::*;

pub mod cell;
pub mod counting;
pub mod field;
pub mod flood;
pub mod grid;
pub mod laws;
pub mod render;

verus! {

/// Configuration for the terminal interface: grid size and mine count.
pub struct Tui {
    pub width: usize,
    pub height: usize,
    pub mines: usize,
}

/// Configuration for the graphical interface: grid size and mine count.
pub struct Gui {
    pub width: u32,
    pub height: u32,
    pub mines: u32,
}

} // verus!
