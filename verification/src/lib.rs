//! The core of a small application launcher: the catalog of applications it
//! offers, the way it starts one, and the ledger in which it records what was
//! started.
//!
//! The library decides and computes; it reads no file and starts no process.
//! - `entry` reads a descriptor file into plain fields, `desktop` turns those
//!   or a configured entry into an application, `catalog` filters and orders
//!   the applications.
//! - `launch` says which process starts an application.
//! - `history` reads, writes and compacts the ledger's text, `ledger` lays
//!   down the file operations that keep the ledger whole, and `history_laws`
//!   states what holds between writing and reading.
//! - `config` and `paths` hold the settings and the places of files.
//! - `order` and `text` are the groundwork: stable sorting and characters.

pub mod catalog;
pub mod config;
pub mod desktop;
pub mod entry;
pub mod history;
pub mod history_laws;
pub mod launch;
pub mod ledger;
pub mod order;
pub mod paths;
pub mod text;
