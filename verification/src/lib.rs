//! A verified filesystem-search core: a validated bundle of matching
//! criteria (entry kind, name pattern, size constraint, depth bound) and a
//! walker that traverses a directory tree depth-first, applies the
//! predicates to each entry, and collects matches and non-fatal diagnostics,
//! with contracts pinning exactly what is reported.

pub mod config;
pub mod matcher;
pub mod walker;
