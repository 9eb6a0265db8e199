//! Ingestion of CSV files into publish/subscribe messages.
//!
//! A change notification from a watched directory is classified, the files it
//! names are decoded into [`models::Person`] records, and each record becomes
//! one message for the transport. Everything here computes on plain values:
//! watching the directory, reading files and talking to the broker are left to
//! the program that drives the library.

pub mod decode;
pub mod event;
pub mod models;
pub mod mqtt_logic;
pub mod notify_logic;
pub mod number;
pub mod pipeline;
