//! Listing one directory from start to end, and walking a tree of
//! directories depth-first.
//!
//! The library does not read directories. The program around it does: it
//! asks the walker for the next directory, reads it, and hands the children
//! to the walker, which renders the directory and notes the subdirectories
//! that are to follow, in the order in which they were listed.

use vstd::prelude::*;
use crate::ls::args::LsArgs;
use crate::ls::collect::collect_entries;
use crate::ls::collect::collected;
use crate::ls::collect::is_hidden;
use crate::ls::collect::is_hidden_name;
use crate::ls::collect::lemma_hidden_left_out;
use crate::ls::entry::Entry;
use crate::ls::entry::EntryModel;
use crate::ls::entry::MetadataModel;
use crate::ls::entry::MetadataSnapshot;
use crate::ls::entry::metadata_model;
use crate::ls::format::entry_lines;
use crate::ls::format::level_lines;
use crate::ls::format::render_level;
use crate::ls::order::dot;
use crate::ls::order::dot_dot;
use crate::ls::order::pin_rank;
use crate::ls::sort::lemma_sorted_arrangement;
use crate::ls::sort::lemma_sorted_ranks;
use crate::ls::sort::sort_entries;
use crate::ls::sort::stable_sorted;
use crate::calendar::local_calendar_now;

verus! {

/// The entries of one directory in listing order: collected, then sorted.
pub open spec fn listed(
    dir: Seq<char>,
    children: Seq<EntryModel>,
    this_dir: Option<MetadataModel>,
    parent_dir: Option<MetadataModel>,
    args: LsArgs,
) -> Seq<EntryModel> {
    stable_sorted(collected(dir, children, this_dir, parent_dir, args.all), args)
}

/// The entries that a recursive listing walks into: the directories that
/// are not hidden. The pseudo-entries are hidden by their names.
pub open spec fn walked() -> spec_fn(EntryModel) -> bool {
    |e: EntryModel| e.is_dir && !is_hidden(e.display_name)
}

/// The paths of the subdirectories to walk into, in the order of `entries`.
pub open spec fn subdirectories(entries: Seq<EntryModel>, recursive: bool) -> Seq<Seq<char>> {
    if recursive {
        entries.filter(walked()).map_values(|e: EntryModel| e.path)
    } else {
        seq![]
    }
}

/// Whether no child bears the name of a pseudo-entry: a directory never
/// lists `.` or `..` among its children.
pub open spec fn proper_children(children: Seq<EntryModel>) -> bool {
    forall|i: int| 0 <= i < children.len() ==> pin_rank(#[trigger] children[i].display_name) == 2
}

/// The outcome of listing one directory.
#[derive(Debug)]
pub struct Level {
    /// The lines to print, in order.
    pub lines: Vec<String>,
    /// The paths of the subdirectories to list next, in order.
    pub subdirs: Vec<String>,
}

/// A directory that is still to be listed.
#[derive(Debug)]
pub struct PendingDirectory {
    pub path: String,
    /// 0 for the directory that the listing started at.
    pub depth: usize,
}

/// The mathematical model of a [`PendingDirectory`].
pub struct PendingModel {
    pub path: Seq<char>,
    pub depth: nat,
}

impl View for PendingDirectory {
    type V = PendingModel;

    open spec fn view(&self) -> PendingModel {
        PendingModel { path: self.path@, depth: self.depth as nat }
    }
}

impl DeepView for PendingDirectory {
    type V = PendingModel;

    open spec fn deep_view(&self) -> PendingModel {
        self@
    }
}

/// A directory that was to be listed could not be opened or read. The walk
/// does not go on past it.
#[derive(Debug, PartialEq, Eq)]
pub struct DirectoryOpenError {
    /// The directory that could not be read.
    pub path: String,
}

/// The state of a depth-first walk: the directories that are still to be
/// listed, the next one last, and the year that the stamps are seen from.
#[derive(Debug)]
pub struct Walker {
    pub pending: Vec<PendingDirectory>,
    pub current_year: i32,
}

/// What is pending when a walk starts at `path`: that directory alone, at
/// depth 0.
pub open spec fn pending_at_start(path: Seq<char>) -> Seq<PendingModel> {
    seq![PendingModel { path, depth: 0 }]
}

/// The directories that a walk has to list after a directory at `depth`
/// whose subdirectories are `subdirs`: these, one level deeper, the first of
/// them next, and before all that was pending.
pub open spec fn pending_after(pending: Seq<PendingModel>, subdirs: Seq<Seq<char>>, depth: nat)
    -> Seq<PendingModel> {
    pending + Seq::new(
        subdirs.len(),
        |i: int| PendingModel { path: subdirs[subdirs.len() - 1 - i], depth: depth + 1 },
    )
}

/// The walk is depth-first and follows the listing order: after a directory
/// the first of its subdirectories is listed next, one level deeper; the
/// other subdirectories follow it and what comes below it, and what was
/// pending before comes last. After a directory without subdirectories the
/// walk goes on with what was pending.
pub proof fn lemma_first_subdirectory_is_next(
    pending: Seq<PendingModel>,
    subdirs: Seq<Seq<char>>,
    depth: nat,
)
    ensures
        subdirs.len() == 0 ==> pending_after(pending, subdirs, depth) == pending,
        subdirs.len() > 0 ==> {
            &&& pending_after(pending, subdirs, depth).last().path == subdirs[0]
            &&& pending_after(pending, subdirs, depth).last().depth == depth + 1
            &&& pending_after(pending, subdirs, depth).drop_last() == pending_after(
                pending,
                subdirs.drop_first(),
                depth,
            )
        },
{
    if subdirs.len() == 0 {
        assert(pending_after(pending, subdirs, depth) =~= pending);
    } else {
        assert(pending_after(pending, subdirs, depth).drop_last() =~= pending_after(
            pending,
            subdirs.drop_first(),
            depth,
        ));
    }
}

/// Without `all`, no listed entry has a name that starts with a dot.
pub proof fn lemma_listing_hides_dotfiles(
    dir: Seq<char>,
    children: Seq<EntryModel>,
    this_dir: Option<MetadataModel>,
    parent_dir: Option<MetadataModel>,
    args: LsArgs,
)
    requires
        !args.all,
    ensures
        forall|i: int|
            0 <= i < listed(dir, children, this_dir, parent_dir, args).len() ==> !is_hidden(
                #[trigger] listed(dir, children, this_dir, parent_dir, args)[i].display_name,
            ),
{
    let gathered = collected(dir, children, this_dir, parent_dir, false);
    lemma_hidden_left_out(dir, children, this_dir, parent_dir);
    let order = lemma_sorted_arrangement(gathered, args);
    let sorted = stable_sorted(gathered, args);
    assert forall|i: int| 0 <= i < sorted.len() implies !is_hidden(
        #[trigger] sorted[i].display_name,
    ) by {
        assert(sorted[i] == gathered[order[i]]);
    }
}

/// Without `all`, the short format prints no name that starts with a dot.
pub proof fn lemma_short_listing_hides_dotfiles(
    dir: Seq<char>,
    children: Seq<EntryModel>,
    this_dir: Option<MetadataModel>,
    parent_dir: Option<MetadataModel>,
    args: LsArgs,
    current_year: i32,
)
    requires
        !args.all,
        !args.long,
    ensures
        forall|k: int|
            0 <= k < entry_lines(
                listed(dir, children, this_dir, parent_dir, args),
                args,
                current_year,
            ).len() ==> !is_hidden(
                #[trigger] entry_lines(
                    listed(dir, children, this_dir, parent_dir, args),
                    args,
                    current_year,
                )[k],
            ),
{
    lemma_listing_hides_dotfiles(dir, children, this_dir, parent_dir, args);
}

/// The pseudo-entries are listed with `all` only: without it no listed entry
/// is named `.` or `..`.
pub proof fn lemma_dots_only_with_all(
    dir: Seq<char>,
    children: Seq<EntryModel>,
    this_dir: Option<MetadataModel>,
    parent_dir: Option<MetadataModel>,
    args: LsArgs,
)
    requires
        !args.all,
    ensures
        forall|i: int|
            0 <= i < listed(dir, children, this_dir, parent_dir, args).len() ==> pin_rank(
                #[trigger] listed(dir, children, this_dir, parent_dir, args)[i].display_name,
            ) == 2,
{
    lemma_listing_hides_dotfiles(dir, children, this_dir, parent_dir, args);
}

/// The pseudo-entries are never walked into, nor is any hidden directory:
/// every subdirectory that a listing names is the path of a listed directory
/// whose name does not start with a dot.
pub proof fn lemma_dots_never_walked(entries: Seq<EntryModel>, recursive: bool, k: int)
    requires
        0 <= k < subdirectories(entries, recursive).len(),
    ensures
        exists|i: int|
            0 <= i < entries.len() && (#[trigger] entries[i]).path == subdirectories(
                entries,
                recursive,
            )[k] && entries[i].is_dir && !is_hidden(entries[i].display_name) && pin_rank(
                entries[i].display_name,
            ) == 2,
{
    let kept = entries.filter(walked());
    entries.lemma_filter_pred(walked(), k);
    assert(kept.contains(kept[k]));
    entries.lemma_filter_contains_rev(walked(), kept[k]);
    let i = choose|i: int| 0 <= i < entries.len() && entries[i] == kept[k];
    assert(entries[i].path == subdirectories(entries, recursive)[k]);
}

/// With `all` and without reversal, `.` and `..` are the first two entries
/// of the listing, whatever the criterion.
pub proof fn lemma_all_lists_dots_first(
    dir: Seq<char>,
    children: Seq<EntryModel>,
    this_dir: Option<MetadataModel>,
    parent_dir: Option<MetadataModel>,
    args: LsArgs,
)
    requires
        args.all,
        !args.reverse,
        proper_children(children),
    ensures
        listed(dir, children, this_dir, parent_dir, args).len() == children.len() + 2,
        listed(dir, children, this_dir, parent_dir, args)[0].display_name == dot(),
        listed(dir, children, this_dir, parent_dir, args)[1].display_name == dot_dot(),
{
    let gathered = collected(dir, children, this_dir, parent_dir, true);
    let sorted = stable_sorted(gathered, args);
    let order = lemma_sorted_arrangement(gathered, args);
    lemma_sorted_ranks(gathered, args);
    lemma_dots_ranked(dir, children, this_dir, parent_dir);
    assert(order.contains(0));
    assert(order.contains(1));
    let i0 = choose|i: int| 0 <= i < order.len() && order[i] == 0;
    let i1 = choose|i: int| 0 <= i < order.len() && order[i] == 1;
    assert(sorted[i0] == gathered[order[i0]]);
    assert(sorted[i1] == gathered[order[i1]]);
    assert(sorted[0] == gathered[order[0]]);
    assert(sorted[1] == gathered[order[1]]);
}

/// With `all` and reversal, `.` and `..` are the last two entries of the
/// listing: `..` before `.`, which closes it.
pub proof fn lemma_reverse_lists_dots_last(
    dir: Seq<char>,
    children: Seq<EntryModel>,
    this_dir: Option<MetadataModel>,
    parent_dir: Option<MetadataModel>,
    args: LsArgs,
)
    requires
        args.all,
        args.reverse,
        proper_children(children),
    ensures
        listed(dir, children, this_dir, parent_dir, args).len() == children.len() + 2,
        listed(dir, children, this_dir, parent_dir, args)[children.len() as int + 1].display_name
            == dot(),
        listed(dir, children, this_dir, parent_dir, args)[children.len() as int].display_name
            == dot_dot(),
{
    let gathered = collected(dir, children, this_dir, parent_dir, true);
    let sorted = stable_sorted(gathered, args);
    let order = lemma_sorted_arrangement(gathered, args);
    lemma_sorted_ranks(gathered, args);
    lemma_dots_ranked(dir, children, this_dir, parent_dir);
    let n = children.len() as int;
    assert(order.contains(0));
    assert(order.contains(1));
    let i0 = choose|i: int| 0 <= i < order.len() && order[i] == 0;
    let i1 = choose|i: int| 0 <= i < order.len() && order[i] == 1;
    assert(sorted[i0] == gathered[order[i0]]);
    assert(sorted[i1] == gathered[order[i1]]);
    assert(sorted[n + 1] == gathered[order[n + 1]]);
    assert(sorted[n] == gathered[order[n]]);
}

/// Of the entries collected with `all`, the first is `.`, the second is
/// `..`, and no other bears either name.
proof fn lemma_dots_ranked(
    dir: Seq<char>,
    children: Seq<EntryModel>,
    this_dir: Option<MetadataModel>,
    parent_dir: Option<MetadataModel>,
)
    requires
        proper_children(children),
    ensures
        collected(dir, children, this_dir, parent_dir, true).len() == children.len() + 2,
        pin_rank(collected(dir, children, this_dir, parent_dir, true)[0].display_name) == 0,
        pin_rank(collected(dir, children, this_dir, parent_dir, true)[1].display_name) == 1,
        forall|k: int|
            2 <= k < children.len() + 2 ==> pin_rank(
                #[trigger] collected(dir, children, this_dir, parent_dir, true)[k].display_name,
            ) == 2,
{
    let gathered = collected(dir, children, this_dir, parent_dir, true);
    assert(dot() != dot_dot()) by {
        assert(dot().len() != dot_dot().len());
    }
    assert forall|k: int| 2 <= k < children.len() + 2 implies pin_rank(
        #[trigger] gathered[k].display_name,
    ) == 2 by {
        assert(gathered[k] == children[k - 2]);
    }
}

/// The paths of the subdirectories to walk into, in the order of `entries`.
pub fn find_subdirectories(entries: &Vec<Entry>, recursive: bool) -> (subdirs: Vec<String>)
    ensures
        subdirs.deep_view() == subdirectories(entries.deep_view(), recursive),
{
    let mut subdirs: Vec<String> = Vec::new();
    if recursive {
        let ghost path_of = |e: EntryModel| e.path;
        let mut i: usize = 0;
        proof {
            reveal(Seq::filter);
        }
        assert(entries.deep_view().take(0) =~= Seq::<EntryModel>::empty());
        assert(subdirs.deep_view() =~= entries.deep_view().take(0).filter(walked()).map_values(
            path_of,
        ));
        while i < entries.len()
            invariant
                i <= entries.len(),
                path_of == |e: EntryModel| e.path,
                subdirs.deep_view() == entries.deep_view().take(i as int).filter(
                    walked(),
                ).map_values(path_of),
            decreases entries.len() - i,
        {
            let ghost before = subdirs.deep_view();
            let ghost seen = entries.deep_view().take(i as int);
            proof {
                seen.lemma_filter_push(entries[i as int]@, walked());
                assert(entries.deep_view().take(i + 1) =~= seen.push(entries[i as int]@));
            }
            if entries[i].is_dir && !is_hidden_name(entries[i].display_name.as_str()) {
                subdirs.push(entries[i].path.clone());
                assert(subdirs.deep_view() =~= before.push(entries[i as int]@.path));
                assert(seen.filter(walked()).push(entries[i as int]@).map_values(path_of)
                    =~= seen.filter(walked()).map_values(path_of).push(entries[i as int]@.path));
            }
            i = i + 1;
        }
        assert(entries.deep_view().take(i as int) =~= entries.deep_view());
    }
    subdirs
}

/// Lists the directory `path` from its children as they were read: collects
/// the entries, sorts them, renders them, and names the subdirectories that a
/// recursive listing walks into next. `this_dir` and `parent_dir` are the
/// metadata of the directory and of its parent, which `.` and `..` show;
/// `depth` is 0 for the directory that the listing started at; the stamps
/// are seen from `current_year`.
pub fn list_directory(
    path: &str,
    children: Vec<Entry>,
    this_dir: Option<MetadataSnapshot>,
    parent_dir: Option<MetadataSnapshot>,
    args: &LsArgs,
    depth: usize,
    current_year: i32,
) -> (level: Level)
    ensures
        level.lines.deep_view() == level_lines(
            path@,
            listed(
                path@,
                children.deep_view(),
                metadata_model(this_dir),
                metadata_model(parent_dir),
                *args,
            ),
            *args,
            depth as nat,
            current_year,
        ),
        level.subdirs.deep_view() == subdirectories(
            listed(
                path@,
                children.deep_view(),
                metadata_model(this_dir),
                metadata_model(parent_dir),
                *args,
            ),
            args.recursive,
        ),
{
    let gathered = collect_entries(path, children, this_dir, parent_dir, args);
    let sorted = sort_entries(gathered, args);
    let lines = render_level(path, &sorted, args, depth, current_year);
    let subdirs = find_subdirectories(&sorted, args.recursive);
    Level { lines, subdirs }
}

impl Walker {
    /// A walk that starts at `path`, with the stamps seen from
    /// `current_year`.
    pub fn starting_at(path: &str, current_year: i32) -> (walker: Walker)
        ensures
            walker.current_year == current_year,
            walker.pending.deep_view() == pending_at_start(path@),
    {
        let mut pending: Vec<PendingDirectory> = Vec::new();
        pending.push(PendingDirectory { path: path.to_owned(), depth: 0 });
        assert(pending.deep_view() =~= pending_at_start(path@));
        Walker { pending, current_year }
    }

    /// A walk that starts at the path of `args`, with the stamps seen from
    /// the year that the clock of the machine shows now.
    pub fn start(args: &LsArgs) -> (walker: Walker)
        ensures
            walker.pending.deep_view() == pending_at_start(args.path@),
    {
        Walker::starting_at(args.path.as_str(), local_calendar_now().year)
    }

    /// Takes the directory that is to be listed next, if any is left.
    pub fn next_directory(&mut self) -> (next: Option<PendingDirectory>)
        ensures
            final(self).current_year == old(self).current_year,
            old(self).pending.deep_view().len() == 0 ==> {
                &&& next is None
                &&& final(self).pending.deep_view() == old(self).pending.deep_view()
            },
            old(self).pending.deep_view().len() > 0 ==> {
                &&& next is Some
                &&& next->0@ == old(self).pending.deep_view().last()
                &&& final(self).pending.deep_view() == old(self).pending.deep_view().drop_last()
            },
    {
        let ghost before = self.pending.deep_view();
        let next = self.pending.pop();
        assert(next is Some ==> self.pending.deep_view() =~= before.drop_last());
        assert(next is None ==> self.pending.deep_view() =~= before);
        next
    }

    /// Ends the walk at the directory `dir`, which could not be opened or
    /// read: nothing is left to list, and the error names the directory.
    pub fn abandon(&mut self, dir: &PendingDirectory) -> (error: DirectoryOpenError)
        ensures
            final(self).current_year == old(self).current_year,
            final(self).pending.deep_view().len() == 0,
            error.path@ == dir.path@,
    {
        self.pending.clear();
        DirectoryOpenError { path: dir.path.clone() }
    }

    /// Lists the directory `dir` from its children as they were read, and
    /// in a recursive listing notes its subdirectories as the next to list:
    /// the walk goes into each of them, in listing order, before it goes on
    /// with what was pending.
    pub fn visit(
        &mut self,
        dir: &PendingDirectory,
        children: Vec<Entry>,
        this_dir: Option<MetadataSnapshot>,
        parent_dir: Option<MetadataSnapshot>,
        args: &LsArgs,
    ) -> (lines: Vec<String>)
        requires
            dir.depth < usize::MAX,
        ensures
            final(self).current_year == old(self).current_year,
            lines.deep_view() == level_lines(
                dir.path@,
                listed(
                    dir.path@,
                    children.deep_view(),
                    metadata_model(this_dir),
                    metadata_model(parent_dir),
                    *args,
                ),
                *args,
                dir.depth as nat,
                old(self).current_year,
            ),
            final(self).pending.deep_view() == pending_after(
                old(self).pending.deep_view(),
                subdirectories(
                    listed(
                        dir.path@,
                        children.deep_view(),
                        metadata_model(this_dir),
                        metadata_model(parent_dir),
                        *args,
                    ),
                    args.recursive,
                ),
                dir.depth as nat,
            ),
    {
        let level = list_directory(
            dir.path.as_str(),
            children,
            this_dir,
            parent_dir,
            args,
            dir.depth,
            self.current_year,
        );
        let ghost before = self.pending.deep_view();
        let ghost subdirs = level.subdirs.deep_view();
        let mut i: usize = level.subdirs.len();
        assert(self.pending.deep_view() =~= pending_after(
            before,
            subdirs.skip(i as int),
            dir.depth as nat,
        ));
        while i > 0
            invariant
                i <= level.subdirs.len(),
                subdirs == level.subdirs.deep_view(),
                dir.depth < usize::MAX,
                self.current_year == old(self).current_year,
                self.pending.deep_view() == pending_after(
                    before,
                    subdirs.skip(i as int),
                    dir.depth as nat,
                ),
            decreases i,
        {
            let ghost so_far = self.pending.deep_view();
            i = i - 1;
            let next = PendingDirectory { path: level.subdirs[i].clone(), depth: dir.depth + 1 };
            self.pending.push(next);
            assert(self.pending.deep_view() =~= so_far.push(
                PendingModel { path: subdirs[i as int], depth: (dir.depth + 1) as nat },
            ));
            assert(self.pending.deep_view() =~= pending_after(
                before,
                subdirs.skip(i as int),
                dir.depth as nat,
            ));
        }
        assert(subdirs.skip(0) =~= subdirs);
        level.lines
    }
}

} // verus!
