//! A local-first secrets vault backed by the macOS Keychain: the vault model,
//! manifests and run policy, binary verification, sandbox profiles, the audit
//! log's records, export and wipe.
pub mod error;
pub mod secret_value;
pub mod text;
pub mod vault;
pub mod memory;
pub mod index;
pub mod manifest;
pub mod sandbox;
pub mod binary;
pub mod codesign;
pub mod keychain;
pub mod audit;
pub mod export;
pub mod runner;
pub mod commands;
pub mod wipe;
pub mod ui;
pub mod paths;
