//! The configuration of one listing run.

use vstd::prelude::*;

verus! {

/// The finished configuration of a listing run. It is read by every stage and
/// changed by none.
#[derive(Debug)]
pub struct LsArgs {
    /// Keep entries whose name starts with a dot, and add `.` and `..`.
    pub all: bool,
    /// Render the metadata columns.
    pub long: bool,
    /// In long format, show sizes with a unit suffix.
    pub human_readable: bool,
    /// Invert the whole order, the pinned entries included.
    pub reverse: bool,
    /// Order by modification time, newest first.
    pub sort_time: bool,
    /// Order by size, largest first. Time wins when both are set.
    pub sort_size: bool,
    /// Descend into subdirectories.
    pub recursive: bool,
    /// The directory to list.
    pub path: String,
}

/// The criterion that orders the entries which are not pinned.
#[derive(Clone, Copy, Debug, PartialEq, Eq, Structural)]
pub enum Criterion {
    /// By name, ascending in byte order.
    Name,
    /// By modification time, newest first.
    Time,
    /// By size, largest first.
    Size,
}

impl LsArgs {
    /// The criterion in effect: time before size, and name when neither is set.
    pub open spec fn criterion_spec(self) -> Criterion {
        if self.sort_time {
            Criterion::Time
        } else if self.sort_size {
            Criterion::Size
        } else {
            Criterion::Name
        }
    }

    /// The criterion in effect.
    pub fn criterion(&self) -> (c: Criterion)
        ensures
            c == self.criterion_spec(),
    {
        if self.sort_time {
            Criterion::Time
        } else if self.sort_size {
            Criterion::Size
        } else {
            Criterion::Name
        }
    }

    /// Whether any stage reads the metadata of the entries: the long format
    /// does, and so do the orders by time and by size.
    pub fn needs_metadata(&self) -> (r: bool)
        ensures
            r == (self.long || self.sort_time || self.sort_size),
    {
        self.long || self.sort_time || self.sort_size
    }
}

} // verus!
