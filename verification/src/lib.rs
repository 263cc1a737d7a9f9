//! Declarative symlink manager for dotfiles: a manifest maps files kept in a
//! store directory to the locations where symlinks to them should appear, and
//! the reconciler compares the declared mapping with the observed filesystem
//! state and decides the corrective action for each entry.

pub mod manifest;
pub mod paths;
pub mod reconcile;
