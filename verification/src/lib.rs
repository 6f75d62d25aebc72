//! A line-oriented todo-list library.
//!
//! A todo list is persisted as plain text, one item per line: the prefix
//! `"[x] "` marks a completed item, `"[ ] "` a pending one, and the rest of
//! the line is the description. The [`codec`] module converts between that
//! text form and in-memory items; the [`session`] module drives the menu
//! state machine of an interactive editing session.

pub mod codec;
pub mod session;
