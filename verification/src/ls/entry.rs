//! The entries of a directory and what is known of each.

use vstd::prelude::*;
use crate::calendar::CalendarTime;

verus! {

/// When an entry was last modified: the instant, by which entries are
/// ordered, and its local calendar reading, which is displayed.
#[derive(Clone, Copy, Debug, PartialEq, Eq, Structural)]
pub struct ModifiedTime {
    /// Whole seconds since the epoch.
    pub secs: i64,
    /// The nanoseconds within the second.
    pub nanos: u32,
    pub local: CalendarTime,
}

/// What the file system reports of one entry, with the owner and the group
/// already looked up.
#[derive(Debug, PartialEq, Eq)]
pub struct MetadataSnapshot {
    pub size: u64,
    /// The permission bits.
    pub mode: u32,
    pub nlink: u64,
    pub uid: u32,
    pub gid: u32,
    /// Storage in units of 512 bytes.
    pub block_count: u64,
    pub modified_time: ModifiedTime,
    /// The owner's name, where the user database has one for `uid`.
    pub owner_name: Option<String>,
    /// The group's name, where the group database has one for `gid`.
    pub group_name: Option<String>,
}

/// The mathematical model of a [`MetadataSnapshot`].
pub struct MetadataModel {
    pub size: u64,
    pub mode: u32,
    pub nlink: u64,
    pub uid: u32,
    pub gid: u32,
    pub block_count: u64,
    pub modified_time: ModifiedTime,
    pub owner_name: Option<Seq<char>>,
    pub group_name: Option<Seq<char>>,
}

/// One child of a directory, or one of the two pseudo-entries `.` and `..`.
#[derive(Debug, PartialEq, Eq)]
pub struct Entry {
    /// Where the entry lies.
    pub path: String,
    /// The name under which it is listed.
    pub display_name: String,
    pub is_dir: bool,
    pub is_symlink: bool,
    /// `None` where the metadata could not be read.
    pub metadata: Option<MetadataSnapshot>,
}

/// The mathematical model of an [`Entry`].
pub struct EntryModel {
    pub path: Seq<char>,
    pub display_name: Seq<char>,
    pub is_dir: bool,
    pub is_symlink: bool,
    pub metadata: Option<MetadataModel>,
}

/// The model of an optional text.
pub open spec fn text_model(text: Option<String>) -> Option<Seq<char>> {
    match text {
        Some(s) => Some(s@),
        None => None,
    }
}

/// The model of an optional snapshot.
pub open spec fn metadata_model(metadata: Option<MetadataSnapshot>) -> Option<MetadataModel> {
    match metadata {
        Some(m) => Some(m@),
        None => None,
    }
}

impl View for MetadataSnapshot {
    type V = MetadataModel;

    open spec fn view(&self) -> MetadataModel {
        MetadataModel {
            size: self.size,
            mode: self.mode,
            nlink: self.nlink,
            uid: self.uid,
            gid: self.gid,
            block_count: self.block_count,
            modified_time: self.modified_time,
            owner_name: text_model(self.owner_name),
            group_name: text_model(self.group_name),
        }
    }
}

impl View for Entry {
    type V = EntryModel;

    open spec fn view(&self) -> EntryModel {
        EntryModel {
            path: self.path@,
            display_name: self.display_name@,
            is_dir: self.is_dir,
            is_symlink: self.is_symlink,
            metadata: metadata_model(self.metadata),
        }
    }
}

impl DeepView for Entry {
    type V = EntryModel;

    open spec fn deep_view(&self) -> EntryModel {
        self@
    }
}

/// A copy of an optional text.
pub fn copy_text(text: &Option<String>) -> (copy: Option<String>)
    ensures
        copy == *text,
{
    match text {
        Some(s) => Some(s.clone()),
        None => None,
    }
}

impl Clone for MetadataSnapshot {
    fn clone(&self) -> (copy: Self)
        ensures
            copy == *self,
    {
        MetadataSnapshot {
            size: self.size,
            mode: self.mode,
            nlink: self.nlink,
            uid: self.uid,
            gid: self.gid,
            block_count: self.block_count,
            modified_time: self.modified_time,
            owner_name: copy_text(&self.owner_name),
            group_name: copy_text(&self.group_name),
        }
    }
}

impl Clone for Entry {
    fn clone(&self) -> (copy: Self)
        ensures
            copy == *self,
    {
        let metadata = match &self.metadata {
            Some(m) => Some(m.clone()),
            None => None,
        };
        Entry {
            path: self.path.clone(),
            display_name: self.display_name.clone(),
            is_dir: self.is_dir,
            is_symlink: self.is_symlink,
            metadata,
        }
    }
}

} // verus!
