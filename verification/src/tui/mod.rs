//! The terminal interface's logic: the task editor, the key handling of the
//! application state, and what the screens show.
pub mod app;
pub mod editor;
pub mod events;
pub mod layout;
pub mod list_highlight;
pub mod modal;
pub mod rows;
pub mod spans;
pub mod widgets;
pub mod session;
