//! Reading a pacman transaction log and planning the way back.
//!
//! The log is read line by line: the filter picks the lines of a day that
//! tell of an installation or an upgrade, and the classifier reads each as a
//! record. The records are then taken back in batches: upgraded packages go
//! back to the archive of the version they had, installed packages are
//! removed. The package manager itself is run by the caller.

pub mod archive;
pub mod classify;
pub mod filter;
pub mod grammar;
pub mod record;
pub mod revert;
pub mod scan;
pub mod text;

pub use crate::archive::{archives, resolve, ArchiveFile};
pub use crate::classify::{convert, is_marked, ClassificationError};
pub use crate::filter::Filter;
pub use crate::record::{Pkg, PkgType};
pub use crate::revert::{
    do_downgrade, do_uninstalled, partition, plan, Action, ActionResult, Batch, Outcome, Report,
    Reversal,
};
pub use crate::scan::{execute, ScanError};
