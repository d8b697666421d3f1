//! A text editor core: a rope buffer with cursors, delta-based undo/redo, regex search,
//! syntax trees and fold regions, and the key handling of an editor view.

pub mod textspec;
pub mod rope;
pub mod cursor;
pub mod buffer;
pub mod history;
pub mod search;
pub mod session;
pub mod keys;
pub mod highlight;
pub mod fold;
pub mod handle;
pub mod editor;
pub mod render;
