//! What a crate can do, as far as its source shows, and how that changes from one version
//! to another.
//!
//! A crate's source gives a report: the places where it is unsafe, talks to foreign code,
//! starts processes, opens sockets, changes files or the environment, and what its
//! manifest adds to that. Two reports give a diff, whose worst new severity tells whether
//! an update deserves a look before it lands.
pub mod audit;
pub mod classify;
pub mod cli;
pub mod diff;
pub mod document;
pub mod lockfile;
pub mod manifest;
pub mod names;
pub mod registry;
pub mod report;
pub mod scan;
pub mod severity;
pub mod signal;
pub mod sort;
pub mod syntax;
pub mod text;

pub use audit::{filter_by_min_severity, AuditEntry};
pub use diff::{diff_reports, Diff};
pub use lockfile::{
    lockfile_version_changes, parse_lockfile, LockedDependency, LockfileDiff, VersionChange,
};
pub use registry::locate_or_fetch;
pub use report::CrateReport;
pub use scan::{scan_dir, CrateDir, SourceFile};
pub use severity::Severity;
pub use signal::{Signal, SignalKind};
