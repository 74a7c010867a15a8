//! Verified core of a personal to-do, journal and time-tracking assistant.

pub mod db;
pub mod export;
pub mod journal;
pub mod labels;
pub mod labels_store;
pub mod migrations;
pub mod order;
pub mod segment;
pub mod settings;
pub mod shell;
pub mod spike_power;
pub mod store;
pub mod system;
pub mod text;
pub mod time;
pub mod todos;
pub mod tracker;
pub mod win_foreground;
pub mod win_idle;
pub mod win_power;
