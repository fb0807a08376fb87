//! Snapshot and restore engine for named files and directory trees.
//!
//! The library holds the decisions of the engine: which items a scope
//! selects, how snapshots are named and laid out, which snapshots belong to
//! an item and in what order, and what a restore must do to the live data.
//! Reading and writing the file system is left to the caller, who performs
//! the plans returned here and hands the observations back.
pub mod error;
pub mod text;
pub mod model;
pub mod filter;
pub mod snapshot;
pub mod restore;
pub mod sync;
pub mod registry;
pub mod keys;
pub mod scripts;
