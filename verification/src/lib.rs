//! Rustique: a mod manager for Vintage Story. This crate holds its rules,
//! each stated as a contract and proved: reading mod versions and picking
//! releases, keeping the sync file of installed mods, deciding what to
//! install, update and remove, searching and listing mods, the table
//! settings of the configuration, and modpacks.
use vstd::prelude::*;

pub mod text;
pub mod traits;
pub mod error;
pub mod api_structs;
pub mod cli;
pub mod client;
pub mod config;
pub mod download;
pub mod keyed;
pub mod timing;
pub mod table;
pub mod semver_calls;
pub mod version;
pub mod order;
pub mod search;
pub mod settings;
pub mod sync;
pub mod install;
pub mod listing;
pub mod modpack;
pub mod textsort;
