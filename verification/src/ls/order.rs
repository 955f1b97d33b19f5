//! The order in which the entries of one directory are listed.
//!
//! Three rules make it up. The pin rule puts `.` before everything and `..`
//! before everything but `.`. Entries that the pin rule does not tell apart
//! are ordered by the criterion in effect: by name; or newest first; or
//! largest first, where the last two fall back to the name when either entry
//! has no metadata and when the two are tied. Reversal, last, inverts the
//! whole order, the pin rule included.

use vstd::prelude::*;
use vstd::string::StrSliceExecFns;
use crate::text::name_precedes;
use crate::text::name_before;
use crate::text::lemma_name_order;
use crate::ls::args::LsArgs;
use crate::ls::args::Criterion;
use crate::ls::entry::Entry;
use crate::ls::entry::EntryModel;
use crate::ls::entry::ModifiedTime;

verus! {

/// The name of the pseudo-entry for the directory itself.
pub open spec fn dot() -> Seq<char> {
    seq!['.']
}

/// The name of the pseudo-entry for the parent directory.
pub open spec fn dot_dot() -> Seq<char> {
    seq!['.', '.']
}

/// The rank that the pin rule gives a name: 0 for `.`, 1 for `..`, 2 for
/// every other name.
pub open spec fn pin_rank(name: Seq<char>) -> int {
    if name == dot() {
        0
    } else if name == dot_dot() {
        1
    } else {
        2
    }
}

/// Whether the instant `a` is later than the instant `b`.
pub open spec fn later(a: ModifiedTime, b: ModifiedTime) -> bool {
    a.secs > b.secs || (a.secs == b.secs && a.nanos > b.nanos)
}

/// Whether `a` and `b` are the same instant.
pub open spec fn same_instant(a: ModifiedTime, b: ModifiedTime) -> bool {
    a.secs == b.secs && a.nanos == b.nanos
}

/// Whether `a` comes strictly before `b` under `criterion`, the pin rule left
/// aside.
pub open spec fn criterion_precedes(a: EntryModel, b: EntryModel, criterion: Criterion) -> bool {
    let by_name = name_precedes(a.display_name, b.display_name);
    match (criterion, a.metadata, b.metadata) {
        (Criterion::Time, Some(ma), Some(mb)) => later(ma.modified_time, mb.modified_time) || (
        same_instant(ma.modified_time, mb.modified_time) && by_name),
        (Criterion::Size, Some(ma), Some(mb)) => ma.size > mb.size || (ma.size == mb.size
            && by_name),
        _ => by_name,
    }
}

/// Whether `a` comes strictly before `b` before any reversal: the pin rule
/// first, then the criterion.
pub open spec fn natural_precedes(a: EntryModel, b: EntryModel, criterion: Criterion) -> bool {
    if pin_rank(a.display_name) != pin_rank(b.display_name) {
        pin_rank(a.display_name) < pin_rank(b.display_name)
    } else {
        criterion_precedes(a, b, criterion)
    }
}

/// Whether `a` is listed strictly before `b` under the configuration `args`.
pub open spec fn precedes(a: EntryModel, b: EntryModel, args: LsArgs) -> bool {
    if args.reverse {
        natural_precedes(b, a, args.criterion_spec())
    } else {
        natural_precedes(a, b, args.criterion_spec())
    }
}

/// Whether the criterion can rank `a` by more than its name: the orders by
/// time and by size need the metadata.
pub open spec fn ranked(a: EntryModel, criterion: Criterion) -> bool {
    criterion == Criterion::Name || a.metadata is Some
}

/// Whether the order is transitive on all of `entries`: it is where the
/// criterion is the name, or where every entry has its metadata.
pub open spec fn all_ranked(entries: Seq<EntryModel>, criterion: Criterion) -> bool {
    forall|i: int| 0 <= i < entries.len() ==> ranked(#[trigger] entries[i], criterion)
}

/// With neither the order by time nor that by size asked for, entries that
/// are not pinned are listed in the order of their names, and under reversal
/// in the inverse of it.
pub proof fn lemma_default_order_is_by_name(a: EntryModel, b: EntryModel, args: LsArgs)
    requires
        !args.sort_time,
        !args.sort_size,
        pin_rank(a.display_name) == 2,
        pin_rank(b.display_name) == 2,
    ensures
        !args.reverse ==> precedes(a, b, args) == name_precedes(a.display_name, b.display_name),
        args.reverse ==> precedes(a, b, args) == name_precedes(b.display_name, a.display_name),
{
}

/// Under the orders by time and by size, two entries that the pin rule does
/// not tell apart and that are tied, by the same instant or the same size,
/// are listed in the order of their names; so are two of which one has no
/// metadata.
pub proof fn lemma_ties_fall_back_to_name(a: EntryModel, b: EntryModel, criterion: Criterion)
    requires
        pin_rank(a.display_name) == pin_rank(b.display_name),
        match (criterion, a.metadata, b.metadata) {
            (Criterion::Time, Some(ma), Some(mb)) => same_instant(
                ma.modified_time,
                mb.modified_time,
            ),
            (Criterion::Size, Some(ma), Some(mb)) => ma.size == mb.size,
            _ => true,
        },
    ensures
        natural_precedes(a, b, criterion) == name_precedes(a.display_name, b.display_name),
{
}

/// Time wins over size when both are asked for.
pub proof fn lemma_time_wins(args: LsArgs)
    requires
        args.sort_time,
    ensures
        args.criterion_spec() == Criterion::Time,
{
}

/// Reversal inverts the whole order: `a` is listed before `b` exactly when,
/// without it, `b` is listed before `a`.
pub proof fn lemma_reverse_inverts(a: EntryModel, b: EntryModel, args: LsArgs, plain: LsArgs)
    requires
        args.reverse,
        !plain.reverse,
        args.criterion_spec() == plain.criterion_spec(),
    ensures
        precedes(a, b, args) == precedes(b, a, plain),
{
}

/// The order is strict: no entry is listed before itself, and of two entries
/// at most one is listed before the other. Two entries of which neither is
/// listed before the other have the same name.
pub proof fn lemma_order_strict(a: EntryModel, b: EntryModel, args: LsArgs)
    ensures
        !precedes(a, a, args),
        !(precedes(a, b, args) && precedes(b, a, args)),
        !precedes(a, b, args) && !precedes(b, a, args) ==> a.display_name == b.display_name,
{
    lemma_name_order(a.display_name, b.display_name, a.display_name);
    lemma_name_order(b.display_name, a.display_name, b.display_name);
}

/// On entries that the criterion can rank, the order is transitive, and so is
/// its complement: the order is a strict weak order there.
pub proof fn lemma_order_transitive(a: EntryModel, b: EntryModel, c: EntryModel, args: LsArgs)
    requires
        ranked(a, args.criterion_spec()),
        ranked(b, args.criterion_spec()),
        ranked(c, args.criterion_spec()),
    ensures
        precedes(a, b, args) && precedes(b, c, args) ==> precedes(a, c, args),
        !precedes(b, a, args) && !precedes(c, b, args) ==> !precedes(c, a, args),
{
    let (x, y, z) = (a.display_name, b.display_name, c.display_name);
    lemma_name_order(x, y, z);
    lemma_name_order(z, y, x);
    lemma_name_order(y, x, z);
    lemma_name_order(y, z, x);
    lemma_name_order(x, z, y);
    lemma_name_order(z, x, y);
}

/// Whether `name` is `.`.
pub fn is_dot(name: &str) -> (r: bool)
    ensures
        r == (name@ == dot()),
{
    let r = name.unicode_len() == 1 && name.get_char(0) == '.';
    assert(r ==> name@ =~= dot());
    r
}

/// Whether `name` is `..`.
pub fn is_dot_dot(name: &str) -> (r: bool)
    ensures
        r == (name@ == dot_dot()),
{
    let r = name.unicode_len() == 2 && name.get_char(0) == '.' && name.get_char(1) == '.';
    assert(r ==> name@ =~= dot_dot());
    r
}

/// The rank that the pin rule gives `name`.
pub fn rank_of(name: &str) -> (rank: u8)
    ensures
        rank == pin_rank(name@),
{
    if is_dot(name) {
        0
    } else if is_dot_dot(name) {
        1
    } else {
        2
    }
}

/// Whether the instant `a` is later than the instant `b`.
pub fn is_later(a: &ModifiedTime, b: &ModifiedTime) -> (r: bool)
    ensures
        r == later(*a, *b),
{
    a.secs > b.secs || (a.secs == b.secs && a.nanos > b.nanos)
}

/// Whether `a` comes strictly before `b` under `criterion`, the pin rule
/// left aside.
pub fn criterion_before(a: &Entry, b: &Entry, criterion: Criterion) -> (r: bool)
    ensures
        r == criterion_precedes(a@, b@, criterion),
{
    match (criterion, &a.metadata, &b.metadata) {
        (Criterion::Time, Some(ma), Some(mb)) => {
            if is_later(&ma.modified_time, &mb.modified_time) {
                true
            } else if is_later(&mb.modified_time, &ma.modified_time) {
                false
            } else {
                name_before(a.display_name.as_str(), b.display_name.as_str())
            }
        },
        (Criterion::Size, Some(ma), Some(mb)) => {
            if ma.size != mb.size {
                ma.size > mb.size
            } else {
                name_before(a.display_name.as_str(), b.display_name.as_str())
            }
        },
        _ => name_before(a.display_name.as_str(), b.display_name.as_str()),
    }
}

/// Whether `a` comes strictly before `b` before any reversal.
pub fn natural_before(a: &Entry, b: &Entry, criterion: Criterion) -> (r: bool)
    ensures
        r == natural_precedes(a@, b@, criterion),
{
    let rank_a = rank_of(a.display_name.as_str());
    let rank_b = rank_of(b.display_name.as_str());
    if rank_a != rank_b {
        rank_a < rank_b
    } else {
        criterion_before(a, b, criterion)
    }
}

/// Whether `a` is listed strictly before `b` under the configuration `args`.
pub fn entry_before(a: &Entry, b: &Entry, args: &LsArgs) -> (r: bool)
    ensures
        r == precedes(a@, b@, *args),
{
    if args.reverse {
        natural_before(b, a, args.criterion())
    } else {
        natural_before(a, b, args.criterion())
    }
}

} // verus!
