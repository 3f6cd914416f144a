//! Text shown by the terminal interface.
pub mod process_table;
pub mod help_overlay;
