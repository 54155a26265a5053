//! The field of a mine puzzle: a grid of cells with hidden bombs, the count
//! of bombs around each cell, the reveal that spreads over empty cells, and
//! the rules by which a click wins or loses the game.
//!
//! [`field::Field`] is the field itself. Its contracts speak of
//! [`model::FieldView`], and of what [`layout`], [`flood`] and [`play`] say a
//! fresh field, a reveal and a click are; [`laws`] states what follows for
//! every field. [`sampling`] draws the places of the bombs, and [`tileset`]
//! cuts the tile sheet that the cells are drawn with.

pub mod cell;
pub mod grid;
pub mod model;
pub mod layout;
pub mod flood;
pub mod play;
pub mod laws;
pub mod input;
pub mod field;
pub mod sampling;
pub mod tileset;
