//! The directory-listing engine: collecting the entries of one directory,
//! ordering them, rendering them in short or long format, and walking
//! subdirectories depth-first.

pub mod args;
pub mod entry;
pub mod size;
pub mod order;
pub mod sort;
pub mod merge;
pub mod collect;
pub mod stamp;
pub mod owner;
pub mod capture;
pub mod format;
pub mod walk;
