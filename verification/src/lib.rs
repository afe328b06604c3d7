//! A small modal text editor core: a linked sequence container, the lines and
//! text built from it, a cursor that stays inside the text, and the mode state
//! machine that turns key events into edits.

pub mod editor;
pub mod error;
pub mod list;
pub mod rendering;
pub mod seq_model;
pub mod text;

mod chain;
