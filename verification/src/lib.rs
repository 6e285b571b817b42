//! Extraction of multi-line entries from plain-text log files.
//!
//! A log entry begins at a line matching a configurable boundary pattern
//! (by default a leading date) and extends over the continuation lines that
//! follow it.  The library segments a file's lines into such entries and
//! keeps only the entries that span more than one line, optionally
//! annotating every output line with the file name and a right-justified
//! line number.

pub mod buf;
pub mod classifier;
pub mod fmt;
pub mod laws;
pub mod model;
pub mod segmenter;
