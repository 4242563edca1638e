//! Reversible "soft delete" engine: relocates files into a staging area with
//! collision-safe renaming, records every move in a LIFO ledger of batches,
//! and can undo the most recent batch, carrying failed restores forward.
//!
//! The crate holds the verified core: the path model, the naming
//! disambiguator, the traversal bookkeeping, the ledger operations and the
//! persisted-ledger codec. Filesystem probes and moves are performed by an
//! unverified driver that consults these functions for every decision.

pub mod codec;
pub mod move_files;
pub mod naming;
pub mod path;
pub mod trash;
