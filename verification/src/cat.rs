//! Concatenating text: the options, and what they do to each line.

pub mod args;
