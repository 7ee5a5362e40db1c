//! Core logic of a terminal system monitor: parsing of command output,
//! formatting of sizes and durations, and the interactive state machine.
pub mod actions;
pub mod app;
pub mod cli;
pub mod collectors;
pub mod commands;
pub mod config;
pub mod diskscan;
pub mod keys;
pub mod keywords;
pub mod labels;
pub mod laws;
pub mod logview;
pub mod memwatch;
pub mod order;
pub mod panels;
pub mod proctable;
pub mod procview;
pub mod text;
pub mod theme;
