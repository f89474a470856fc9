//! Gader: the verified core of a small log-shipping system. An agent parses
//! container log lines into entries, keeps a session per connected viewer
//! (handshake, service filter, batching), and a terminal viewer keeps the
//! received entries, the active service filter and the table selection.

pub mod common;
pub mod app;
pub mod screen;
pub mod ui;
pub mod parsers;
pub mod tofu;
pub mod agent;
pub mod history;
