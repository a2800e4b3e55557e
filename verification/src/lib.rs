//! The playable state of a grid of hidden mines: placing mines, stepping on
//! spots, flagging them, revealing connected empty regions, and telling when
//! the field has been cleared.

mod draw;
pub mod field;
pub mod flood;
pub mod grid;
pub mod neighbors;
pub mod spot;
pub mod theorems;
pub mod validity;

pub use crate::field::{cell, cells, Minefield};
pub use crate::grid::{adjacent, block, Grid};
pub use crate::spot::{FlagToggleResult, Spot, SpotState, StepResult};
