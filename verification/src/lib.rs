//! Core of a chat bot that counts a recurring text token per user and guild:
//! the declared command schema and its reconciliation against a remote
//! registry, the counting store with its opt-out gate, the notification
//! policy, and the dense-ranked leaderboard.

pub mod command;
pub mod database;
pub mod matcher;
pub mod message;
pub mod reconcile;
pub mod registry;
pub mod text;
