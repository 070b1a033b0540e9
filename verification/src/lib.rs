//! Review-session core for a spaced-repetition flashcard reader.
//!
//! The crate holds the device-independent logic of the reader: the text
//! reflow engine that breaks card text into screen-sized pages, the
//! session controller that tracks the card under review and turns a
//! rating into an answer record, the deck-tree flattener, and the sync
//! status coordinator.  Storage, scheduling, networking and the UI
//! toolkit are collaborators that the surrounding program drives; this
//! crate only decides, on plain values, what they should be asked to do.

pub mod config;
pub mod decks;
pub mod session;
pub mod sync;
pub mod text;
