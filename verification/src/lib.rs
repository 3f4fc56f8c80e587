//! A two-dimensional text grid addressed by display-width coordinates.
//!
//! The grid stores lines of Unicode text, one cell per character, each cell
//! carrying the character's display width in terminal columns. Edits are
//! addressed by `(column, row)` coordinates measured in display widths, so a
//! wide character occupies two columns and a coordinate inside its span
//! resolves to the character itself. Out-of-bounds coordinates grow the grid:
//! missing rows are appended as empty lines and short rows are padded with
//! spaces.
//!
//! Only characters with a defined display width are representable. Loading a
//! text that contains any other character (a control character, a tab) fails
//! with an explicit `None`; the single-character edits demand a representable
//! character up front, and the `try_` variants check that and report whether
//! the edit happened. A fully empty text loads as a grid with zero lines.

pub mod width;
pub mod line;
pub mod grid;
pub mod text;
pub mod laws;

pub use line::{Cell, Line};
pub use grid::TextCanvas;
pub use width::char_display_width;
