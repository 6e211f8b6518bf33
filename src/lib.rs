//! Builds a size-annotated tree of a directory listing: each file carries its
//! byte length, each directory the saturating sum of the children it keeps.
//! Entries can be left out by a minimum size or by a path pattern.

pub mod laws;
pub mod pattern;
pub mod scan;
pub mod size;

pub use pattern::{is_artifact, Pattern, PatternError};
pub use scan::{depth_fits_in, read_files, read_files_regex, Entry, FileTree, Scan, Warning, WarningKind};
pub use size::FileSize;
