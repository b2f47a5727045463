//! Verified core of a machine-provisioning tool.
//!
//! The library covers the two subsystems that carry the design decisions:
//! a sequential provisioning pipeline whose steps can fail independently
//! without aborting the run, and an idempotent export-sync engine that
//! reconciles a canonical list of shell `export` declarations against the
//! contents of several shell startup files, appending only what is missing.
//!
//! Text is modelled as lines of bytes (`Vec<u8>`): two export declarations
//! are equal exactly when their bytes are identical.

pub mod exports;
pub mod lines;
pub mod packages;
pub mod paths;
pub mod pipeline;
pub mod select;
pub mod steps;
