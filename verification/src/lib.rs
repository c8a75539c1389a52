//! A dead-file finder for single-entry-point web projects.
//!
//! The library discovers nothing itself: callers hand it file paths and file
//! contents as plain bytes.  It catalogues files by kind, separates source
//! text into code and comments, records which PHP files mention which other
//! files, locates the single root file by its header marker, and classifies
//! every non-root file as alive, dead, or referenced only from comments.

pub mod catalog;
pub mod classify;
pub mod comments;
pub mod scan;
pub mod source;
pub mod text;
