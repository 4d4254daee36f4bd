//! The decision-making core of a terminal weather radar and alert monitor.

pub mod alert;
pub mod cli;
pub mod conditions;
pub mod config;
pub mod counties;
pub mod daemon;
pub mod geo;
pub mod ieee;
pub mod lattice;
pub mod notify;
pub mod order;
pub mod radar;
pub mod render;
pub mod table;
pub mod text;
pub mod time;
pub mod tui;
