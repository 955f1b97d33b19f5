//! Taking the snapshot of an entry: what the file system reports of it,
//! completed by the owner's and the group's name and by the local reading of
//! the modification time.

use vstd::prelude::*;
use crate::calendar::CalendarTime;
use crate::calendar::chrono_reaches;
use crate::calendar::local_calendar;
use crate::ls::entry::MetadataSnapshot;
use crate::ls::entry::ModifiedTime;
use crate::ls::owner::group_name_of;
use crate::ls::owner::user_name_of;

verus! {

/// What the file system reports of one entry.
#[derive(Clone, Copy, Debug, PartialEq, Eq, Structural)]
pub struct RawMetadata {
    pub size: u64,
    /// The permission bits.
    pub mode: u32,
    pub nlink: u64,
    pub uid: u32,
    pub gid: u32,
    /// Storage in units of 512 bytes.
    pub block_count: u64,
    /// Modification time: whole seconds since the epoch.
    pub mtime_secs: i64,
    /// Modification time: the nanoseconds within the second.
    pub mtime_nanos: u32,
}

impl MetadataSnapshot {
    /// Whether the snapshot holds the numbers of `raw` unchanged.
    pub open spec fn carries(self, raw: RawMetadata) -> bool {
        &&& self.size == raw.size
        &&& self.mode == raw.mode
        &&& self.nlink == raw.nlink
        &&& self.uid == raw.uid
        &&& self.gid == raw.gid
        &&& self.block_count == raw.block_count
        &&& self.modified_time.secs == raw.mtime_secs
        &&& self.modified_time.nanos == raw.mtime_nanos
    }

    /// Puts a snapshot together from the numbers of `raw` and the outcome of
    /// the three lookups. There is no snapshot where the modification time
    /// has no local reading.
    pub fn assemble(
        raw: &RawMetadata,
        local: Option<CalendarTime>,
        owner_name: Option<String>,
        group_name: Option<String>,
    ) -> (snapshot: Option<MetadataSnapshot>)
        ensures
            snapshot is Some <==> local is Some,
            snapshot matches Some(m) ==> {
                &&& m.carries(*raw)
                &&& Some(m.modified_time.local) == local
                &&& m.owner_name == owner_name
                &&& m.group_name == group_name
            },
    {
        match local {
            Some(local) => Some(
                MetadataSnapshot {
                    size: raw.size,
                    mode: raw.mode,
                    nlink: raw.nlink,
                    uid: raw.uid,
                    gid: raw.gid,
                    block_count: raw.block_count,
                    modified_time: ModifiedTime {
                        secs: raw.mtime_secs,
                        nanos: raw.mtime_nanos,
                        local,
                    },
                    owner_name,
                    group_name,
                },
            ),
            None => None,
        }
    }

    /// Takes the snapshot of an entry: looks up the names of its owner and
    /// its group and reads its modification time in the local time zone.
    /// There is a snapshot exactly where the calendar reaches the
    /// modification time, and whatever the lookups give, it holds the numbers
    /// of `raw` unchanged.
    pub fn capture(raw: &RawMetadata) -> (snapshot: Option<MetadataSnapshot>)
        ensures
            snapshot is Some <==> chrono_reaches(raw.mtime_secs as int, raw.mtime_nanos as int),
            snapshot matches Some(m) ==> m.carries(*raw),
    {
        let local = local_calendar(raw.mtime_secs, raw.mtime_nanos);
        let owner_name = user_name_of(raw.uid);
        let group_name = group_name_of(raw.gid);
        MetadataSnapshot::assemble(raw, local, owner_name, group_name)
    }
}

} // verus!
