//! Core of a small binary package manager.
//!
//! The crate covers the deterministic parts of the manager: selecting a
//! release asset that fits the host platform and architecture, the package
//! record and its identity parsing, the persistent registry of installed
//! packages, and the planning of installation and safe removal. Network,
//! archive and filesystem side effects are left to a thin shell around the
//! library; everything here is pure and verified.

pub mod config;
pub mod err;
pub mod fetch;
pub mod filter;
pub mod install;
pub mod paths;
pub mod registry;
pub mod storage;
pub mod text;
pub mod urls;
pub mod winpath;
