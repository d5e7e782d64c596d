//! Decision logic of a DNP3 master that monitors a fleet of RTUs.
//!
//! A remote terminal unit (RTU) is polled over DNP3, its telemetry is kept in a
//! snapshot, and operators may queue controls for it. Everything the master
//! decides from plain values stands here with its contract: what a snapshot
//! holds after a poll, which point changes are reported, which RTUs share a
//! connection, how a command is answered, and what the fleet's health is.
//! Sockets, timers, locks and the HTTP server belong to the program around it.

pub mod analog;
pub mod clock;
pub mod command;
pub mod config;
pub mod fleet;
pub mod handler;
pub mod health;
pub mod history;
pub mod idmap;
pub mod master;
pub mod settings;
pub mod telemetry;
