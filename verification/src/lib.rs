//! Core logic of a btrfs impermanence reset tool.
//!
//! The crate models the decisions the tool makes — configuration parsing,
//! subvolume-listing parsing, path-ownership resolution, deletion planning
//! and the per-boot orchestration sequence — as verified functions over
//! plain values.  Performing the planned mounts, copies and deletions is
//! left to an unverified driver that executes the plans in order.

pub mod commands;
pub mod config;
pub mod orchestrator;
pub mod persist;
pub mod subvol;
pub mod text;
