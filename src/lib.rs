//! A small terminal screen: text is placed into a pending grid of styled
//! cells, and a flush emits only the cells that differ from what the
//! terminal already shows.
use vstd::prelude::*;

pub mod colored_text;
pub mod colors;
pub mod laws;
pub mod scr;
pub mod terminal;

pub use colored_text::{styled, ColoredChar, ColoredText, StyledCell};
pub use scr::{CellWrite, Scr, ScreenModel};
pub use terminal::get_dimensions;
