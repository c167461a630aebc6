//! Verified core of a dynamic DNS updater for Route53: the configured record
//! list and how commands change it, the parsing of what the user types, the
//! record changes that are sent to the hosted zone, and the decisions taken
//! while installing the systemd units.

pub mod config;
pub mod text;
pub mod prompt;
pub mod commands;
pub mod service;
pub mod records;
