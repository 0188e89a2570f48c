//! Decides what an incremental mirror of snapshots has to transfer.
//!
//! A source is either a dataset of a snapshot-capable filesystem or a
//! content-addressed backup repository. For each source the reconciler finds
//! the last snapshot that was mirrored and still exists, compares it with the
//! newest snapshot, and plans a full mirror, an incremental transfer, or
//! nothing. The commands themselves, the target directory and the durable
//! log are the caller's: this crate decides, the caller acts.
//!
//! - `reconciler` is the state machine that a caller drives, `model` its
//!   meaning over mathematical values, and `laws` what is proved of every run.
//! - `history` is the log of backups.
//! - `change` and `plan` turn a change list into what to remove and what to
//!   copy.
//! - `oracle`, `dataset` and `repo` read what the tools of the two kinds of
//!   source print; `transfer` prepares what the transfer program is handed.
//! - `text` holds the text primitives that the readers are made of.
pub mod change;
pub mod dataset;
pub mod error;
pub mod history;
pub mod laws;
pub mod model;
pub mod oracle;
pub mod plan;
pub mod reconciler;
pub mod repo;
pub mod source;
pub mod text;
pub mod transfer;
