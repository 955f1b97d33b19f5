//! Verified cores of three small file utilities: listing a directory,
//! concatenating text and touching files.
//!
//! Everything here works on plain values. Reading directories and files and
//! printing is left to the program around the library. The calendar comes
//! from chrono, the names of users and groups from users.

pub mod text;
pub mod calendar;
pub mod ls;
pub mod cat;
pub mod touch;
