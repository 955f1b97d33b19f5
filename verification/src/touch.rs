//! Touching files: which times are set, on which files, and from which
//! source the times come.

pub mod args;
