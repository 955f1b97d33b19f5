//! Collecting the entries of one directory: the children as they were read,
//! without the hidden ones, or with all of them and the two pseudo-entries
//! `.` and `..` in front.

use vstd::prelude::*;
use vstd::string::StringExecFns;
use vstd::string::StrSliceExecFns;
use crate::ls::args::LsArgs;
use crate::ls::entry::Entry;
use crate::ls::entry::EntryModel;
use crate::ls::entry::MetadataModel;
use crate::ls::entry::MetadataSnapshot;
use crate::ls::entry::metadata_model;
use crate::ls::order::dot;
use crate::ls::order::dot_dot;

verus! {

/// Whether a name is hidden: it begins with a dot.
pub open spec fn is_hidden(name: Seq<char>) -> bool {
    name.len() > 0 && name[0] == '.'
}

/// The entries that a listing without `all` keeps.
pub open spec fn visible() -> spec_fn(EntryModel) -> bool {
    |e: EntryModel| !is_hidden(e.display_name)
}

/// The path of `name` below `dir`: the two joined by one separator, which is
/// left out where `dir` is empty or already ends in one.
pub open spec fn join_path(dir: Seq<char>, name: Seq<char>) -> Seq<char> {
    if dir.len() == 0 || dir.last() == '/' {
        dir + name
    } else {
        dir + seq!['/'] + name
    }
}

/// The pseudo-entry `name` of the directory `dir`. It is listed and never
/// walked into.
pub open spec fn pseudo_entry(
    dir: Seq<char>,
    name: Seq<char>,
    metadata: Option<MetadataModel>,
) -> EntryModel {
    EntryModel {
        path: join_path(dir, name),
        display_name: name,
        is_dir: true,
        is_symlink: false,
        metadata,
    }
}

/// The entries of one directory before they are ordered. With `all`: `.`,
/// `..` and every child. Without: the children that are not hidden.
pub open spec fn collected(
    dir: Seq<char>,
    children: Seq<EntryModel>,
    this_dir: Option<MetadataModel>,
    parent_dir: Option<MetadataModel>,
    all: bool,
) -> Seq<EntryModel> {
    if all {
        seq![pseudo_entry(dir, dot(), this_dir), pseudo_entry(dir, dot_dot(), parent_dir)]
            + children
    } else {
        children.filter(visible())
    }
}

/// Without `all` no collected entry is hidden, and every child that is not
/// hidden is collected.
pub proof fn lemma_hidden_left_out(
    dir: Seq<char>,
    children: Seq<EntryModel>,
    this_dir: Option<MetadataModel>,
    parent_dir: Option<MetadataModel>,
)
    ensures
        forall|i: int|
            0 <= i < collected(dir, children, this_dir, parent_dir, false).len() ==> !is_hidden(
                #[trigger] collected(dir, children, this_dir, parent_dir, false)[i].display_name,
            ),
        forall|i: int|
            0 <= i < children.len() && !is_hidden(children[i].display_name) ==> collected(
                dir,
                children,
                this_dir,
                parent_dir,
                false,
            ).contains(#[trigger] children[i]),
{
    let kept = children.filter(visible());
    assert forall|i: int| 0 <= i < kept.len() implies !is_hidden(
        #[trigger] kept[i].display_name,
    ) by {
        children.lemma_filter_pred(visible(), i);
    }
    assert forall|i: int|
        0 <= i < children.len() && !is_hidden(children[i].display_name) implies kept.contains(
        #[trigger] children[i],
    ) by {
        children.lemma_filter_contains(visible(), i);
    }
}

/// Whether `name` is hidden.
pub fn is_hidden_name(name: &str) -> (r: bool)
    ensures
        r == is_hidden(name@),
{
    !name.is_empty() && name.get_char(0) == '.'
}

/// Joins `name` to the directory path `dir`.
pub fn join(dir: &str, name: &str) -> (path: String)
    ensures
        path@ == join_path(dir@, name@),
{
    let mut path = String::from_str(dir);
    let len = dir.unicode_len();
    if len > 0 && dir.get_char(len - 1) != '/' {
        path.push('/');
    }
    path.append(name);
    assert(path@ =~= join_path(dir@, name@));
    path
}

/// Makes the pseudo-entry `name` of the directory `dir`.
pub fn make_pseudo_entry(dir: &str, name: &str, metadata: Option<MetadataSnapshot>) -> (entry:
    Entry)
    ensures
        entry@ == pseudo_entry(dir@, name@, metadata_model(metadata)),
{
    Entry {
        path: join(dir, name),
        display_name: String::from_str(name),
        is_dir: true,
        is_symlink: false,
        metadata,
    }
}

/// Collects the entries of the directory `dir` from its children as they
/// were read. `this_dir` and `parent_dir` are the metadata of the directory
/// and of its parent, for the two pseudo-entries.
pub fn collect_entries(
    dir: &str,
    children: Vec<Entry>,
    this_dir: Option<MetadataSnapshot>,
    parent_dir: Option<MetadataSnapshot>,
    args: &LsArgs,
) -> (entries: Vec<Entry>)
    ensures
        entries.deep_view() == collected(
            dir@,
            children.deep_view(),
            metadata_model(this_dir),
            metadata_model(parent_dir),
            args.all,
        ),
{
    let mut entries: Vec<Entry> = Vec::new();
    if args.all {
        proof {
            reveal_strlit(".");
            reveal_strlit("..");
            assert("."@ =~= dot());
            assert(".."@ =~= dot_dot());
        }
        entries.push(make_pseudo_entry(dir, ".", this_dir));
        entries.push(make_pseudo_entry(dir, "..", parent_dir));
        let ghost front = entries.deep_view();
        let mut i: usize = 0;
        assert(children.deep_view().take(0) =~= Seq::<EntryModel>::empty());
        assert(entries.deep_view() =~= front + children.deep_view().take(0));
        while i < children.len()
            invariant
                i <= children.len(),
                entries.deep_view() == front + children.deep_view().take(i as int),
            decreases children.len() - i,
        {
            let ghost before = entries.deep_view();
            entries.push(children[i].clone());
            i = i + 1;
            assert(entries.deep_view() =~= before.push(children[i - 1]@));
            assert(children.deep_view().take(i as int) =~= children.deep_view().take(i - 1).push(
                children[i - 1]@,
            ));
            assert(entries.deep_view() =~= front + children.deep_view().take(i as int));
        }
        assert(children.deep_view().take(i as int) =~= children.deep_view());
        assert(front =~= seq![
            pseudo_entry(dir@, dot(), metadata_model(this_dir)),
            pseudo_entry(dir@, dot_dot(), metadata_model(parent_dir)),
        ]);
    } else {
        let mut i: usize = 0;
        proof {
            reveal(Seq::filter);
        }
        assert(children.deep_view().take(0) =~= Seq::<EntryModel>::empty());
        assert(entries.deep_view() =~= children.deep_view().take(0).filter(visible()));
        while i < children.len()
            invariant
                i <= children.len(),
                entries.deep_view() == children.deep_view().take(i as int).filter(visible()),
            decreases children.len() - i,
        {
            let ghost before = entries.deep_view();
            let ghost seen = children.deep_view().take(i as int);
            proof {
                seen.lemma_filter_push(children[i as int]@, visible());
                assert(children.deep_view().take(i + 1) =~= seen.push(children[i as int]@));
            }
            if !is_hidden_name(children[i].display_name.as_str()) {
                entries.push(children[i].clone());
                assert(entries.deep_view() =~= before.push(children[i as int]@));
            }
            i = i + 1;
        }
        assert(children.deep_view().take(i as int) =~= children.deep_view());
    }
    entries
}

} // verus!
