//! Command dispatch and recurrence scheduling for a long-running chat bot.
//!
//! The [`framework`] module turns a line of text into a command and its bound
//! arguments; [`rrules`] decides when a recurring action fires; [`handlers`]
//! holds the decisions taken on each inbound event.
pub mod framework;
pub mod handlers;
pub mod rrules;
