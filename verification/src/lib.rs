//! The decision-making core of a daemon that feeds an e-ink panel with the next calendar event
//! and the latest desktop notification.

pub mod agenda;
pub mod calendar;
pub mod clock;
pub mod config;
pub mod date;
pub mod display;
pub mod notify;
pub mod text;
pub mod tray;
