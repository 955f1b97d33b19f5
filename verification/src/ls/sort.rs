//! The stable sort that puts the entries of one directory in listing order.
//!
//! The result is defined by insertion: each entry in turn is placed behind
//! the last entry that it does not precede. The laws below say what that
//! gives: the same entries, each neighbour in order, every pair in order
//! where the order is transitive, and entries that the order does not tell
//! apart in the sequence in which they came.

use vstd::prelude::*;
use crate::ls::args::LsArgs;
use crate::ls::entry::Entry;
use crate::ls::entry::EntryModel;
use crate::ls::merge::as_order;
use crate::ls::merge::can_rank_all;
use crate::ls::merge::lemma_run_is_arrangement;
use crate::ls::merge::sort_run;
use crate::ls::order::all_ranked;
use crate::ls::order::entry_before;
use crate::ls::order::lemma_order_strict;
use crate::ls::order::lemma_order_transitive;
use crate::ls::order::pin_rank;
use crate::ls::order::precedes;
use crate::ls::order::ranked;

verus! {

/// The place at which `x` enters the ordered sequence `sorted`: behind the
/// last entry that `x` does not precede.
pub open spec fn insertion_point(sorted: Seq<EntryModel>, x: EntryModel, args: LsArgs) -> int
    decreases sorted.len(),
{
    if sorted.len() == 0 || !precedes(x, sorted.last(), args) {
        sorted.len() as int
    } else {
        insertion_point(sorted.drop_last(), x, args)
    }
}

/// `sorted` with `x` placed in it.
pub open spec fn placed(sorted: Seq<EntryModel>, x: EntryModel, args: LsArgs) -> Seq<EntryModel> {
    sorted.insert(insertion_point(sorted, x, args), x)
}

/// The entries in listing order.
pub open spec fn stable_sorted(entries: Seq<EntryModel>, args: LsArgs) -> Seq<EntryModel>
    decreases entries.len(),
{
    if entries.len() == 0 {
        entries
    } else {
        placed(stable_sorted(entries.drop_last(), args), entries.last(), args)
    }
}

/// Whether `order` lists each index below `n` exactly once.
pub open spec fn is_arrangement(order: Seq<int>, n: nat) -> bool {
    &&& order.len() == n
    &&& forall|i: int| 0 <= i < n ==> 0 <= #[trigger] order[i] < n
    &&& forall|i: int, j: int| 0 <= i < j < n ==> #[trigger] order[i] != #[trigger] order[j]
    &&& forall|k: int| 0 <= k < n ==> #[trigger] order.contains(k)
}

/// Whether `order` takes `entries` to `sorted` without moving a later entry
/// before an earlier one that it does not precede.
pub open spec fn is_stable_arrangement(
    sorted: Seq<EntryModel>,
    entries: Seq<EntryModel>,
    order: Seq<int>,
    args: LsArgs,
) -> bool {
    &&& is_arrangement(order, entries.len())
    &&& sorted.len() == entries.len()
    &&& forall|i: int| 0 <= i < entries.len() ==> #[trigger] sorted[i] == entries[order[i]]
    &&& forall|i: int, j: int|
        0 <= i < j < entries.len() && order[i] > order[j] ==> precedes(
            #[trigger] entries[order[i]],
            #[trigger] entries[order[j]],
            args,
        )
}

/// Whether each entry of `sorted` is followed by none that precedes it.
pub open spec fn neighbours_ordered(sorted: Seq<EntryModel>, args: LsArgs) -> bool {
    forall|i: int|
        0 <= i && i + 1 < sorted.len() ==> !precedes(#[trigger] sorted[i + 1], sorted[i], args)
}

/// Whether no entry of `sorted` stands behind one that it precedes.
pub open spec fn all_ordered(sorted: Seq<EntryModel>, args: LsArgs) -> bool {
    forall|i: int, j: int|
        0 <= i < j < sorted.len() ==> !precedes(#[trigger] sorted[j], #[trigger] sorted[i], args)
}

/// The rank of an entry along the listing: the pin rank, counted downwards
/// under reversal.
pub open spec fn listing_rank(e: EntryModel, args: LsArgs) -> int {
    if args.reverse {
        2 - pin_rank(e.display_name)
    } else {
        pin_rank(e.display_name)
    }
}

/// Whether the pin ranks never fall along `sorted`.
pub open spec fn ranks_ascend(sorted: Seq<EntryModel>, args: LsArgs) -> bool {
    forall|i: int, j: int|
        0 <= i <= j < sorted.len() ==> listing_rank(#[trigger] sorted[i], args) <= listing_rank(
            #[trigger] sorted[j],
            args,
        )
}

/// Whether the order tells no two entries of the class `class` apart.
pub open spec fn is_level_class(class: spec_fn(EntryModel) -> bool, args: LsArgs) -> bool {
    forall|a: EntryModel, b: EntryModel|
        class(a) && class(b) ==> !#[trigger] precedes(a, b, args)
}

/// The insertion point lies within the sequence; `x` precedes every entry
/// behind it and does not precede the entry just before it.
pub proof fn lemma_insertion_point(sorted: Seq<EntryModel>, x: EntryModel, args: LsArgs)
    ensures
        0 <= insertion_point(sorted, x, args) <= sorted.len(),
        forall|j: int|
            insertion_point(sorted, x, args) <= j < sorted.len() ==> precedes(
                x,
                #[trigger] sorted[j],
                args,
            ),
        insertion_point(sorted, x, args) > 0 ==> !precedes(
            x,
            sorted[insertion_point(sorted, x, args) - 1],
            args,
        ),
    decreases sorted.len(),
{
    if sorted.len() > 0 && precedes(x, sorted.last(), args) {
        lemma_insertion_point(sorted.drop_last(), x, args);
        let p = insertion_point(sorted, x, args);
        assert forall|j: int| p <= j < sorted.len() implies precedes(
            x,
            #[trigger] sorted[j],
            args,
        ) by {
            if j < sorted.len() - 1 {
                assert(sorted.drop_last()[j] == sorted[j]);
            }
        }
    }
}

/// Sorting keeps the entries: the result holds each entry as often as the
/// input does.
pub proof fn lemma_sorted_keeps_entries(entries: Seq<EntryModel>, args: LsArgs)
    ensures
        stable_sorted(entries, args).len() == entries.len(),
        stable_sorted(entries, args).to_multiset() == entries.to_multiset(),
    decreases entries.len(),
{
    broadcast use vstd::seq_lib::to_multiset_build, vstd::seq_lib::to_multiset_insert;

    if entries.len() > 0 {
        let rest = stable_sorted(entries.drop_last(), args);
        lemma_sorted_keeps_entries(entries.drop_last(), args);
        lemma_insertion_point(rest, entries.last(), args);
        assert(entries =~= entries.drop_last().push(entries.last()));
    }
}

/// Sorting rearranges: there is an arrangement of the indices that takes the
/// input to the result, and under it an entry that came later stands before
/// one that came earlier only where it precedes it.
pub proof fn lemma_sorted_arrangement(entries: Seq<EntryModel>, args: LsArgs) -> (order: Seq<int>)
    ensures
        is_stable_arrangement(stable_sorted(entries, args), entries, order, args),
    decreases entries.len(),
{
    if entries.len() == 0 {
        Seq::empty()
    } else {
        let rest = stable_sorted(entries.drop_last(), args);
        let before = lemma_sorted_arrangement(entries.drop_last(), args);
        let x = entries.last();
        let p = insertion_point(rest, x, args);
        lemma_insertion_point(rest, x, args);
        let order = before.insert(p, entries.len() - 1);
        let sorted = stable_sorted(entries, args);
        assert forall|k: int| 0 <= k < entries.len() implies #[trigger] order.contains(k) by {
            if k == entries.len() - 1 {
                assert(order[p] == k);
            } else {
                assert(before.contains(k));
                let i = choose|i: int| 0 <= i < before.len() && before[i] == k;
                if i < p {
                    assert(order[i] == k);
                } else {
                    assert(order[i + 1] == k);
                }
            }
        }
        assert forall|i: int| 0 <= i < entries.len() implies #[trigger] sorted[i]
            == entries[order[i]] by {
            if i < p {
                assert(sorted[i] == rest[i]);
            } else if i > p {
                assert(sorted[i] == rest[i - 1]);
            }
        }
        assert forall|i: int, j: int|
            0 <= i < j < entries.len() && order[i] > order[j] implies precedes(
            #[trigger] entries[order[i]],
            #[trigger] entries[order[j]],
            args,
        ) by {
            if i == p {
                assert(rest[j - 1] == entries.drop_last()[before[j - 1]]);
            } else if j == p {
            } else {
                let i0 = if i < p {
                    i
                } else {
                    i - 1
                };
                let j0 = if j < p {
                    j
                } else {
                    j - 1
                };
                assert(precedes(
                    entries.drop_last()[before[i0]],
                    entries.drop_last()[before[j0]],
                    args,
                ));
            }
        }
        order
    }
}

/// In the result no entry is followed directly by one that precedes it.
pub proof fn lemma_sorted_neighbours(entries: Seq<EntryModel>, args: LsArgs)
    ensures
        neighbours_ordered(stable_sorted(entries, args), args),
    decreases entries.len(),
{
    if entries.len() > 0 {
        let rest = stable_sorted(entries.drop_last(), args);
        let x = entries.last();
        let p = insertion_point(rest, x, args);
        lemma_sorted_neighbours(entries.drop_last(), args);
        lemma_insertion_point(rest, x, args);
        let sorted = stable_sorted(entries, args);
        assert forall|i: int| 0 <= i && i + 1 < sorted.len() implies !precedes(
            #[trigger] sorted[i + 1],
            sorted[i],
            args,
        ) by {
            if i + 1 < p {
                assert(sorted[i + 1] == rest[i + 1]);
                assert(sorted[i] == rest[i]);
            } else if i + 1 == p {
                assert(sorted[i] == rest[p - 1]);
            } else if i == p {
                assert(sorted[i + 1] == rest[p]);
                lemma_order_strict(x, rest[p], args);
            } else {
                assert(sorted[i + 1] == rest[(i - 1) + 1]);
                assert(sorted[i] == rest[i - 1]);
            }
        }
    }
}

/// The pin rule holds of the whole result: the pin ranks never fall along it,
/// and under reversal never rise.
pub proof fn lemma_sorted_ranks(entries: Seq<EntryModel>, args: LsArgs)
    ensures
        ranks_ascend(stable_sorted(entries, args), args),
{
    let sorted = stable_sorted(entries, args);
    lemma_sorted_neighbours(entries, args);
    assert forall|i: int, j: int| 0 <= i <= j < sorted.len() implies listing_rank(
        #[trigger] sorted[i],
        args,
    ) <= listing_rank(#[trigger] sorted[j], args) by {
        lemma_ranks_chain(sorted, args, i, j);
    }
}

/// Along a sequence whose neighbours are in order, the pin rank at `i` is at
/// most that at any later `j`.
proof fn lemma_ranks_chain(sorted: Seq<EntryModel>, args: LsArgs, i: int, j: int)
    requires
        neighbours_ordered(sorted, args),
        0 <= i <= j < sorted.len(),
    ensures
        listing_rank(sorted[i], args) <= listing_rank(sorted[j], args),
    decreases j - i,
{
    if i < j {
        lemma_ranks_chain(sorted, args, i, j - 1);
        assert(!precedes(sorted[(j - 1) + 1], sorted[j - 1], args));
    }
}

/// Where the criterion can rank every entry, the result is ordered
/// throughout: no entry stands anywhere behind one that it precedes.
pub proof fn lemma_sorted_ordered(entries: Seq<EntryModel>, args: LsArgs)
    requires
        all_ranked(entries, args.criterion_spec()),
    ensures
        all_ordered(stable_sorted(entries, args), args),
        all_ranked(stable_sorted(entries, args), args.criterion_spec()),
    decreases entries.len(),
{
    if entries.len() > 0 {
        let rest = stable_sorted(entries.drop_last(), args);
        let x = entries.last();
        let p = insertion_point(rest, x, args);
        assert(all_ranked(entries.drop_last(), args.criterion_spec())) by {
            assert forall|i: int| 0 <= i < entries.drop_last().len() implies ranked(
                #[trigger] entries.drop_last()[i],
                args.criterion_spec(),
            ) by {
                assert(entries.drop_last()[i] == entries[i]);
            }
        }
        lemma_sorted_ordered(entries.drop_last(), args);
        lemma_insertion_point(rest, x, args);
        let sorted = stable_sorted(entries, args);
        assert forall|i: int| 0 <= i < sorted.len() implies ranked(
            #[trigger] sorted[i],
            args.criterion_spec(),
        ) by {
            if i < p {
                assert(sorted[i] == rest[i]);
            } else if i > p {
                assert(sorted[i] == rest[i - 1]);
            }
        }
        assert forall|i: int, j: int| 0 <= i < j < sorted.len() implies !precedes(
            #[trigger] sorted[j],
            #[trigger] sorted[i],
            args,
        ) by {
            if j < p {
                assert(sorted[j] == rest[j] && sorted[i] == rest[i]);
            } else if j == p {
                assert(sorted[i] == rest[i]);
                if i < p - 1 {
                    lemma_order_transitive(rest[i], rest[p - 1], x, args);
                }
            } else if i == p {
                assert(sorted[j] == rest[j - 1]);
                lemma_order_strict(x, rest[j - 1], args);
            } else if i < p {
                assert(sorted[j] == rest[j - 1] && sorted[i] == rest[i]);
            } else {
                assert(sorted[j] == rest[j - 1] && sorted[i] == rest[i - 1]);
            }
        }
    }
}

/// The sort is stable: entries that the order does not tell apart keep the
/// sequence in which they came. For every class of entries of which none
/// precedes another, the entries of the class stand in the result as they
/// stand in the input.
pub proof fn lemma_sort_is_stable(
    entries: Seq<EntryModel>,
    args: LsArgs,
    class: spec_fn(EntryModel) -> bool,
)
    requires
        is_level_class(class, args),
    ensures
        stable_sorted(entries, args).filter(class) == entries.filter(class),
    decreases entries.len(),
{
    broadcast use
        Seq::filter_distributes_over_add,
        Seq::lemma_filter_push,
    ;

    if entries.len() > 0 {
        let rest = stable_sorted(entries.drop_last(), args);
        let x = entries.last();
        let p = insertion_point(rest, x, args);
        lemma_sort_is_stable(entries.drop_last(), args, class);
        lemma_insertion_point(rest, x, args);
        let head = rest.subrange(0, p);
        let tail = rest.subrange(p, rest.len() as int);
        assert(rest =~= head + tail);
        assert(stable_sorted(entries, args) =~= head.push(x) + tail);
        assert(entries =~= entries.drop_last().push(x));
        if class(x) {
            assert forall|j: int| 0 <= j < tail.len() implies !class(#[trigger] tail[j]) by {
                assert(tail[j] == rest[p + j]);
                assert(precedes(x, rest[p + j], args));
            }
            tail.lemma_all_neg_filter_empty(class);
            assert(tail.filter(class) =~= Seq::<EntryModel>::empty());
            assert(head.filter(class) + tail.filter(class) =~= head.filter(class));
            assert(head.filter(class).push(x) + tail.filter(class) =~= head.filter(class).push(
                x,
            ));
        }
    } else {
        assert(stable_sorted(entries, args) =~= entries);
    }
}

/// Sorting by name is stable: with neither the order by time nor that by
/// size asked for, the entries that bear one name stand in the result in the
/// sequence in which they came.
pub proof fn lemma_same_names_keep_order(entries: Seq<EntryModel>, args: LsArgs, name: Seq<char>)
    requires
        !args.sort_time,
        !args.sort_size,
    ensures
        stable_sorted(entries, args).filter(|e: EntryModel| e.display_name == name)
            == entries.filter(|e: EntryModel| e.display_name == name),
{
    let class = |e: EntryModel| e.display_name == name;
    assert forall|a: EntryModel, b: EntryModel| class(a) && class(b) implies !#[trigger] precedes(
        a,
        b,
        args,
    ) by {
        lemma_order_strict(a, b, args);
    }
    lemma_sort_is_stable(entries, args, class);
}

/// Where the criterion can rank every entry there is one stable sort: an
/// arrangement of the entries that is ordered throughout and moves no later
/// entry before an earlier one that it does not precede is the result of the
/// sort.
pub proof fn lemma_stable_sort_is_unique(
    entries: Seq<EntryModel>,
    args: LsArgs,
    other: Seq<EntryModel>,
    order: Seq<int>,
)
    requires
        all_ranked(entries, args.criterion_spec()),
        is_stable_arrangement(other, entries, order, args),
        all_ordered(other, args),
    ensures
        other == stable_sorted(entries, args),
{
    let sorted = stable_sorted(entries, args);
    let mine = lemma_sorted_arrangement(entries, args);
    lemma_sorted_ordered(entries, args);
    assert forall|i: int| 0 <= i < entries.len() implies mine[i] == order[i] by {
        lemma_arrangements_agree(entries, args, other, order, sorted, mine, i);
    }
    assert(other =~= sorted);
}

/// Two stable arrangements of the same entries that are both ordered
/// throughout agree at every place.
proof fn lemma_arrangements_agree(
    entries: Seq<EntryModel>,
    args: LsArgs,
    left: Seq<EntryModel>,
    left_order: Seq<int>,
    right: Seq<EntryModel>,
    right_order: Seq<int>,
    i: int,
)
    requires
        is_stable_arrangement(left, entries, left_order, args),
        is_stable_arrangement(right, entries, right_order, args),
        all_ordered(left, args),
        all_ordered(right, args),
        0 <= i < entries.len(),
    ensures
        left_order[i] == right_order[i],
    decreases i,
{
    assert forall|k: int| 0 <= k < i implies left_order[k] == right_order[k] by {
        lemma_arrangements_agree(entries, args, left, left_order, right, right_order, k);
    }
    let a = right_order[i];
    let b = left_order[i];
    if a != b {
        assert(left_order.contains(a));
        let j = choose|j: int| 0 <= j < left_order.len() && left_order[j] == a;
        assert(right_order.contains(b));
        let k = choose|k: int| 0 <= k < right_order.len() && right_order[k] == b;
        if j < i {
            assert(right_order[j] == a);
        }
        if k < i {
            assert(left_order[k] == b);
        }
        assert(i < j && i < k);
        assert(left[i] == entries[b] && left[j] == entries[a]);
        assert(right[i] == entries[a] && right[k] == entries[b]);
        assert(!precedes(left[j], left[i], args));
        assert(!precedes(right[k], right[i], args));
        if b > a {
            assert(precedes(entries[left_order[i]], entries[left_order[j]], args));
        } else {
            assert(precedes(entries[right_order[i]], entries[right_order[k]], args));
        }
    }
}

/// Puts the entries in listing order by insertion, whatever the order is.
pub fn sort_by_insertion(entries: &Vec<Entry>, args: &LsArgs) -> (sorted: Vec<Entry>)
    ensures
        sorted.deep_view() == stable_sorted(entries.deep_view(), *args),
{
    let mut sorted: Vec<Entry> = Vec::new();
    let mut i: usize = 0;
    assert(entries.deep_view().take(0) =~= Seq::<EntryModel>::empty());
    assert(sorted.deep_view() =~= Seq::<EntryModel>::empty());
    while i < entries.len()
        invariant
            i <= entries.len(),
            sorted.deep_view() == stable_sorted(entries.deep_view().take(i as int), *args),
        decreases entries.len() - i,
    {
        let x = entries[i].clone();
        let ghost done = sorted.deep_view();
        let mut p: usize = sorted.len();
        assert(done.take(p as int) =~= done);
        while p > 0 && entry_before(&x, &sorted[p - 1], args)
            invariant
                p <= sorted.len(),
                done == sorted.deep_view(),
                insertion_point(done, x@, *args) == insertion_point(
                    done.take(p as int),
                    x@,
                    *args,
                ),
            decreases p,
        {
            assert(done.take(p as int).drop_last() =~= done.take(p - 1));
            assert(done.take(p as int).last() == sorted[p - 1]@);
            p = p - 1;
        }
        assert(insertion_point(done, x@, *args) == p) by {
            if p > 0 {
                assert(done.take(p as int).last() == sorted[p - 1]@);
            }
        }
        sorted.insert(p, x);
        i = i + 1;
        proof {
            let now = entries.deep_view().take(i as int);
            assert(now.drop_last() =~= entries.deep_view().take(i - 1));
            assert(now.last() == x@);
            assert(sorted.deep_view() =~= done.insert(p as int, x@));
        }
    }
    assert(entries.deep_view().take(i as int) =~= entries.deep_view());
    sorted
}

/// The entries in the sequence of the run `run` of their indices.
pub fn arrange(entries: &Vec<Entry>, run: &Vec<usize>) -> (sorted: Vec<Entry>)
    requires
        run.len() == entries.len(),
        forall|i: int| 0 <= i < run.len() ==> (#[trigger] run[i]) < entries.len(),
    ensures
        sorted.deep_view() == Seq::new(
            entries.len() as nat,
            |i: int| entries.deep_view()[run[i] as int],
        ),
{
    let mut sorted: Vec<Entry> = Vec::new();
    let mut i: usize = 0;
    assert(sorted.deep_view() =~= Seq::new(0, |k: int| entries.deep_view()[run[k] as int]));
    while i < run.len()
        invariant
            i <= run.len(),
            run.len() == entries.len(),
            forall|k: int| 0 <= k < run.len() ==> (#[trigger] run[k]) < entries.len(),
            sorted.deep_view() == Seq::new(
                i as nat,
                |k: int| entries.deep_view()[run[k] as int],
            ),
        decreases run.len() - i,
    {
        let ghost before = sorted.deep_view();
        sorted.push(entries[run[i]].clone());
        i = i + 1;
        assert(sorted.deep_view() =~= before.push(entries[run[i - 1] as int]@));
        assert(sorted.deep_view() =~= Seq::new(
            i as nat,
            |k: int| entries.deep_view()[run[k] as int],
        ));
    }
    sorted
}

/// Puts the entries in listing order. Where the criterion can rank every
/// entry the entries are sorted by merging; where an entry lacks the
/// metadata that the criterion asks for, by insertion.
pub fn sort_entries(entries: Vec<Entry>, args: &LsArgs) -> (sorted: Vec<Entry>)
    ensures
        sorted.deep_view() == stable_sorted(entries.deep_view(), *args),
{
    if can_rank_all(&entries, args.criterion()) {
        let run = sort_run(&entries, 0, entries.len(), args);
        let sorted = arrange(&entries, &run);
        proof {
            lemma_run_is_arrangement(run@, entries.deep_view(), *args, entries.len());
            lemma_stable_sort_is_unique(
                entries.deep_view(),
                *args,
                sorted.deep_view(),
                as_order(run@),
            );
        }
        sorted
    } else {
        sort_by_insertion(&entries, args)
    }
}

} // verus!
