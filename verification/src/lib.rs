//! Verified core of a workspace materializer: many independent working
//! trees are derived from one mostly-immutable base tree, deduplicating
//! storage for shareable content while keeping private content per
//! workspace.
//!
//! The crate verifies the decision logic: classifying base paths into
//! roles, resolving sharing policies, planning the filesystem actions
//! that build a workspace, and planning the non-destructive repairs that
//! bring a drifted workspace back in line. Filesystem effects themselves
//! are carried out by an unverified front end that feeds snapshots of the
//! relevant trees into these planners and applies the returned actions.

pub mod clean;
pub mod config;
pub mod fstree;
pub mod link;
pub mod manifest;
pub mod path_util;
pub mod repair;
pub mod roles;
pub mod sharing;
