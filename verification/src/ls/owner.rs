//! Owners and groups: the name where the system knows one, the number
//! where it does not.

use vstd::prelude::*;
use crate::text::decimal;
use crate::text::decimal_string;
use crate::ls::entry::MetadataModel;
use crate::ls::entry::text_model;

verus! {

/// The text that stands for the holder of `id`: the name that was found for
/// it, else the number itself.
pub open spec fn identity_text(name: Option<Seq<char>>, id: u32) -> Seq<char> {
    match name {
        Some(n) => n,
        None => decimal(id as nat),
    }
}

/// The owner column of an entry.
pub open spec fn owner_text(metadata: MetadataModel) -> Seq<char> {
    identity_text(metadata.owner_name, metadata.uid)
}

/// The group column of an entry.
pub open spec fn group_text(metadata: MetadataModel) -> Seq<char> {
    identity_text(metadata.group_name, metadata.gid)
}

/// `users::get_user_by_uid` and `User::name`: the name of the user `uid` in
/// the user database of the machine, `None` where it has none. Nothing is
/// claimed of the result: it depends on that database.
#[verifier::external_body]
pub(crate) fn user_name_of(uid: u32) -> (name: Option<String>) {
    match users::get_user_by_uid(uid) {
        Some(user) => Some(user.name().to_string_lossy().into_owned()),
        None => None,
    }
}

/// `users::get_group_by_gid` and `Group::name`: the name of the group `gid`
/// in the group database of the machine, `None` where it has none. Nothing
/// is claimed of the result: it depends on that database.
#[verifier::external_body]
pub(crate) fn group_name_of(gid: u32) -> (name: Option<String>) {
    match users::get_group_by_gid(gid) {
        Some(group) => Some(group.name().to_string_lossy().into_owned()),
        None => None,
    }
}

/// The text that stands for the holder of `id`, given the outcome of the
/// lookup: the name, or the number where the lookup found none.
pub fn resolve_identity(name: &Option<String>, id: u32) -> (text: String)
    ensures
        text@ == identity_text(text_model(*name), id),
{
    match name {
        Some(n) => n.clone(),
        None => decimal_string(id as u128),
    }
}

} // verus!
