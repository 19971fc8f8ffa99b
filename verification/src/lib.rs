//! Decision logic of the HealthChecks operator installer.
//!
//! The installer applies, or deletes, the operator's manifests through the
//! cluster command-line tool: first the custom resource definition, then every
//! definition file listed by the repository, in path order. This crate holds
//! the rules of that run; starting processes, fetching the listing and
//! printing are left to the program that drives it.
//!
//! - `command`: the operation of a run and the argument that selects it;
//! - `tree`: the repository's listing;
//! - `text`: the order of paths and the search for a piece of text;
//! - `byte_order`: why the order of paths is that of their bytes;
//! - `plan`: which entries of a listing a run processes, and in what order;
//! - `machine`: the run, step by step;
//! - `run`: what holds of every run.

pub mod byte_order;
pub mod command;
pub mod machine;
pub mod plan;
pub mod run;
pub mod text;
pub mod tree;
