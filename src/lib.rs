//! A monitor for a fleet of networked 3D printers: the device's line
//! protocol (commands and response decoding), the state kept per printer,
//! the registry of printers with its completion-notification ledger, the
//! composition of notifications, and the camera multiplexer's decisions.
pub mod api;
pub mod config;
pub mod error;
pub mod kv;
pub mod manager;
pub mod models;
pub mod numbers;
pub mod printer;
pub mod protocol;
pub mod table;
pub mod text;
