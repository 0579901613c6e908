//! A personal task tracker: tasks with priority, status, due dates,
//! categories and time-tracking sessions, kept in memory as one
//! collection and persisted wholesale as structured text.

pub mod chars;
pub mod codec;
pub mod laws;
pub mod model;
pub mod ops;
pub mod render;
pub mod time;

pub use chars::str_to_chars;
