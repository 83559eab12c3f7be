//! Synchronization-and-notification core of a personal calendar assistant.
//!
//! The library keeps a local store of calendar events in step with a remote
//! provider and decides, on a recurring cadence, which events are about to
//! start and must fire an alert; a fired notification is disabled, so
//! delivery is at least once.

pub mod calendar;
pub mod command_line;
pub mod decimal;
pub mod env;
pub mod google_calendar;
pub mod links;
pub mod models;
pub mod notification;
pub mod oauth;
pub mod repository;
pub mod timestamp;
