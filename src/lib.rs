//! Width-aware pretty printing of structured text, plus a small hexadecimal
//! encoding helper.
pub mod hex;
pub mod prettier;
