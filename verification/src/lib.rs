//! A small modal text editor core: line tokenizing, the insert-mode macro
//! detector and the text edits behind the editor's key handling.

pub mod text;
pub mod line;
pub mod style;
pub mod indent;
pub mod clock;
pub mod operation;
pub mod edit;
pub mod editor;
