//! Find files with identical contents in a directory tree and group them by a
//! content fingerprint.
//!
//! The verified core: the inventory of a walk, the fingerprint of a file's
//! bytes, the grouping of fingerprinted files, the progress of a run, the split
//! of a run among workers, and the state machine of the desktop shell. Reading
//! the disk, spawning workers and drawing windows happen around it.

pub mod fingerprint;
pub mod inventory;
pub mod relate;
pub mod state;
