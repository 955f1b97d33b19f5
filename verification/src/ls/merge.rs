//! Sorting by merging, for the directories whose entries the criterion can
//! rank throughout.
//!
//! The sort works on the indices of the entries: a run is a sequence of
//! indices whose entries stand in listing order, and two runs are merged
//! into one. Where the order is transitive, the run of all indices is the
//! arrangement that the stable sort is defined by.

use vstd::prelude::*;
use crate::ls::args::Criterion;
use crate::ls::args::LsArgs;
use crate::ls::entry::Entry;
use crate::ls::entry::EntryModel;
use crate::ls::order::all_ranked;
use crate::ls::order::entry_before;
use crate::ls::order::lemma_order_strict;
use crate::ls::order::lemma_order_transitive;
use crate::ls::order::precedes;
use crate::ls::order::ranked;

verus! {

/// Whether the entry at index `i` is listed strictly before that at `j`.
pub open spec fn before_at(entries: Seq<EntryModel>, i: usize, j: usize, args: LsArgs) -> bool {
    precedes(entries[i as int], entries[j as int], args)
}

/// Whether `run` holds indices of `entries`, none twice, whose entries stand
/// in listing order, a later index before an earlier one only where its
/// entry precedes the other.
pub open spec fn is_run(run: Seq<usize>, entries: Seq<EntryModel>, args: LsArgs) -> bool {
    &&& forall|i: int| 0 <= i < run.len() ==> (#[trigger] run[i]) < entries.len()
    &&& forall|i: int, j: int|
        0 <= i < j < run.len() ==> {
            &&& #[trigger] run[i] != #[trigger] run[j]
            &&& !before_at(entries, run[j], run[i], args)
            &&& (run[i] > run[j] ==> before_at(entries, run[i], run[j], args))
        }
}

/// Whether every index of `left` lies below `mid` and every index of `right`
/// at or above it.
pub open spec fn split_at(left: Seq<usize>, right: Seq<usize>, mid: usize) -> bool {
    &&& forall|i: int| 0 <= i < left.len() ==> (#[trigger] left[i]) < mid
    &&& forall|i: int| 0 <= i < right.len() ==> (#[trigger] right[i]) >= mid
}

/// Whether `run` holds exactly the indices from `lo` up to `hi`.
pub open spec fn covers(run: Seq<usize>, lo: usize, hi: usize) -> bool {
    &&& run.len() == hi - lo
    &&& forall|i: int| 0 <= i < run.len() ==> lo <= (#[trigger] run[i]) < hi
    &&& forall|k: usize| lo <= k < hi ==> #[trigger] run.contains(k)
}

/// Two runs merged into one: of the two first indices, the right one goes
/// first where its entry precedes the left one, else the left one.
pub open spec fn merged(
    left: Seq<usize>,
    right: Seq<usize>,
    entries: Seq<EntryModel>,
    args: LsArgs,
) -> Seq<usize>
    decreases left.len() + right.len(),
{
    if left.len() == 0 {
        right
    } else if right.len() == 0 {
        left
    } else if before_at(entries, right[0], left[0], args) {
        seq![right[0]] + merged(left, right.drop_first(), entries, args)
    } else {
        seq![left[0]] + merged(left.drop_first(), right, entries, args)
    }
}

/// A run without its first index is a run.
proof fn lemma_rest_is_run(run: Seq<usize>, entries: Seq<EntryModel>, args: LsArgs)
    requires
        is_run(run, entries, args),
        run.len() > 0,
    ensures
        is_run(run.drop_first(), entries, args),
        !run.drop_first().contains(run[0]),
        forall|k: usize| run.contains(k) <==> k == run[0] || run.drop_first().contains(k),
{
    let rest = run.drop_first();
    assert forall|i: int| 0 <= i < rest.len() implies (#[trigger] rest[i]) < entries.len() by {
        assert(rest[i] == run[i + 1]);
    }
    assert forall|i: int, j: int| 0 <= i < j < rest.len() implies {
        &&& #[trigger] rest[i] != #[trigger] rest[j]
        &&& !before_at(entries, rest[j], rest[i], args)
        &&& (rest[i] > rest[j] ==> before_at(entries, rest[i], rest[j], args))
    } by {
        assert(rest[i] == run[i + 1] && rest[j] == run[j + 1]);
    }
    if rest.contains(run[0]) {
        let i = choose|i: int| 0 <= i < rest.len() && rest[i] == run[0];
        assert(run[i + 1] == run[0]);
    }
    assert forall|k: usize| run.contains(k) <==> k == run[0] || rest.contains(k) by {
        if run.contains(k) {
            let i = choose|i: int| 0 <= i < run.len() && run[i] == k;
            if i > 0 {
                assert(rest[i - 1] == k);
            }
        }
        if rest.contains(k) {
            let i = choose|i: int| 0 <= i < rest.len() && rest[i] == k;
            assert(run[i + 1] == k);
        }
        if k == run[0] {
            assert(run[0] == k);
        }
    }
}

/// Where the criterion can rank every entry, two runs that are split at an
/// index merge into a run, which holds the indices of both and no other.
pub proof fn lemma_merged_is_run(
    left: Seq<usize>,
    right: Seq<usize>,
    entries: Seq<EntryModel>,
    args: LsArgs,
    mid: usize,
)
    requires
        all_ranked(entries, args.criterion_spec()),
        is_run(left, entries, args),
        is_run(right, entries, args),
        split_at(left, right, mid),
    ensures
        is_run(merged(left, right, entries, args), entries, args),
        merged(left, right, entries, args).len() == left.len() + right.len(),
        forall|k: usize|
            #[trigger] merged(left, right, entries, args).contains(k) <==> left.contains(k)
                || right.contains(k),
    decreases left.len() + right.len(),
{
    let all = merged(left, right, entries, args);
    if left.len() == 0 {
        assert forall|k: usize| !left.contains(k) by {}
    } else if right.len() == 0 {
        assert forall|k: usize| !right.contains(k) by {}
    } else {
        let right_first = before_at(entries, right[0], left[0], args);
        let head = if right_first {
            right[0]
        } else {
            left[0]
        };
        let rest_left = if right_first {
            left
        } else {
            left.drop_first()
        };
        let rest_right = if right_first {
            right.drop_first()
        } else {
            right
        };
        let rest = merged(rest_left, rest_right, entries, args);
        lemma_rest_is_run(left, entries, args);
        lemma_rest_is_run(right, entries, args);
        assert(split_at(rest_left, rest_right, mid)) by {
            assert forall|i: int| 0 <= i < rest_left.len() implies (#[trigger] rest_left[i])
                < mid by {
                if !right_first {
                    assert(rest_left[i] == left[i + 1]);
                }
            }
            assert forall|i: int| 0 <= i < rest_right.len() implies (#[trigger] rest_right[i])
                >= mid by {
                if right_first {
                    assert(rest_right[i] == right[i + 1]);
                }
            }
        }
        lemma_merged_is_run(rest_left, rest_right, entries, args, mid);
        assert(all =~= seq![head] + rest);
        assert(left[0] < mid && right[0] >= mid);
        assert forall|k: usize| #[trigger] all.contains(k) <==> left.contains(k) || right.contains(
            k,
        ) by {
            if all.contains(k) {
                let i = choose|i: int| 0 <= i < all.len() && all[i] == k;
                if i > 0 {
                    assert(rest[i - 1] == k);
                    assert(rest.contains(k));
                }
            }
            if left.contains(k) || right.contains(k) {
                if k == head {
                    assert(all[0] == k);
                } else {
                    assert(rest.contains(k));
                    let i = choose|i: int| 0 <= i < rest.len() && rest[i] == k;
                    assert(all[i + 1] == k);
                }
            }
        }
        assert forall|i: int| 0 <= i < all.len() implies (#[trigger] all[i]) < entries.len() by {
            if i > 0 {
                assert(all[i] == rest[i - 1]);
            }
        }
        assert forall|i: int, j: int| 0 <= i < j < all.len() implies {
            &&& #[trigger] all[i] != #[trigger] all[j]
            &&& !before_at(entries, all[j], all[i], args)
            &&& (all[i] > all[j] ==> before_at(entries, all[i], all[j], args))
        } by {
            if i > 0 {
                assert(all[i] == rest[i - 1] && all[j] == rest[j - 1]);
            } else {
                let y = all[j];
                assert(y == rest[j - 1]);
                assert(rest.contains(y));
                lemma_head_leads(left, right, entries, args, mid, y);
            }
        }
    }
}

/// The index that a merge takes first stands rightly before every other
/// index `y` of the two runs.
proof fn lemma_head_leads(
    left: Seq<usize>,
    right: Seq<usize>,
    entries: Seq<EntryModel>,
    args: LsArgs,
    mid: usize,
    y: usize,
)
    requires
        all_ranked(entries, args.criterion_spec()),
        is_run(left, entries, args),
        is_run(right, entries, args),
        split_at(left, right, mid),
        left.len() > 0,
        right.len() > 0,
        if before_at(entries, right[0], left[0], args) {
            left.contains(y) || right.drop_first().contains(y)
        } else {
            left.drop_first().contains(y) || right.contains(y)
        },
    ensures
        ({
            let head = if before_at(entries, right[0], left[0], args) {
                right[0]
            } else {
                left[0]
            };
            &&& head != y
            &&& !before_at(entries, y, head, args)
            &&& (head > y ==> before_at(entries, head, y, args))
        }),
{
    let l0 = left[0];
    let r0 = right[0];
    assert(l0 < mid && r0 >= mid);
    assert(ranked(entries[l0 as int], args.criterion_spec()));
    assert(ranked(entries[r0 as int], args.criterion_spec()));
    lemma_rest_is_run(left, entries, args);
    lemma_rest_is_run(right, entries, args);
    lemma_order_strict(entries[r0 as int], entries[l0 as int], args);
    if left.contains(y) {
        let k = choose|k: int| 0 <= k < left.len() && left[k] == y;
        assert(ranked(entries[y as int], args.criterion_spec()));
        if before_at(entries, r0, l0, args) {
            if k > 0 {
                assert(!before_at(entries, left[k], left[0], args));
            } else {
                lemma_order_strict(entries[l0 as int], entries[l0 as int], args);
            }
            lemma_order_transitive(entries[r0 as int], entries[l0 as int], entries[y as int], args);
            lemma_order_transitive(entries[y as int], entries[r0 as int], entries[l0 as int], args);
            lemma_order_strict(entries[r0 as int], entries[y as int], args);
        } else {
            assert(k > 0);
            assert(!before_at(entries, left[k], left[0], args));
        }
    } else {
        let k = choose|k: int| 0 <= k < right.len() && right[k] == y;
        assert(ranked(entries[y as int], args.criterion_spec()));
        if before_at(entries, r0, l0, args) {
            assert(k > 0);
            assert(!before_at(entries, right[k], right[0], args));
        } else {
            if k > 0 {
                assert(!before_at(entries, right[k], right[0], args));
            } else {
                lemma_order_strict(entries[r0 as int], entries[r0 as int], args);
            }
            lemma_order_transitive(entries[l0 as int], entries[r0 as int], entries[y as int], args);
        }
    }
}

/// The indices of a run as an arrangement.
pub open spec fn as_order(run: Seq<usize>) -> Seq<int> {
    run.map_values(|k: usize| k as int)
}

/// Whether the criterion can rank every entry.
pub fn can_rank_all(entries: &Vec<Entry>, criterion: Criterion) -> (r: bool)
    ensures
        r == all_ranked(entries.deep_view(), criterion),
{
    let by_name = match criterion {
        Criterion::Name => true,
        _ => false,
    };
    if by_name {
        return true;
    }
    let mut i: usize = 0;
    while i < entries.len()
        invariant
            i <= entries.len(),
            criterion != Criterion::Name,
            forall|k: int| 0 <= k < i ==> ranked(#[trigger] entries.deep_view()[k], criterion),
        decreases entries.len() - i,
    {
        assert(entries.deep_view()[i as int] == entries[i as int]@);
        match &entries[i].metadata {
            Some(_) => {},
            None => {
                assert(!ranked(entries.deep_view()[i as int], criterion));
                return false;
            },
        }
        i = i + 1;
    }
    true
}

/// Merges two runs into one.
pub fn merge_runs(entries: &Vec<Entry>, left: &Vec<usize>, right: &Vec<usize>, args: &LsArgs) -> (all:
    Vec<usize>)
    requires
        forall|i: int| 0 <= i < left.len() ==> (#[trigger] left[i]) < entries.len(),
        forall|i: int| 0 <= i < right.len() ==> (#[trigger] right[i]) < entries.len(),
    ensures
        all@ == merged(left@, right@, entries.deep_view(), *args),
{
    let mut all: Vec<usize> = Vec::new();
    let mut a: usize = 0;
    let mut b: usize = 0;
    assert(left@.skip(0) =~= left@ && right@.skip(0) =~= right@);
    while a < left.len() || b < right.len()
        invariant
            a <= left.len(),
            b <= right.len(),
            forall|i: int| 0 <= i < left.len() ==> (#[trigger] left[i]) < entries.len(),
            forall|i: int| 0 <= i < right.len() ==> (#[trigger] right[i]) < entries.len(),
            all@ + merged(left@.skip(a as int), right@.skip(b as int), entries.deep_view(), *args)
                == merged(left@, right@, entries.deep_view(), *args),
        decreases (left.len() - a) + (right.len() - b),
    {
        let ghost rest_left = left@.skip(a as int);
        let ghost rest_right = right@.skip(b as int);
        let ghost before = all@;
        let take_right = if a >= left.len() {
            true
        } else if b >= right.len() {
            false
        } else {
            entry_before(&entries[right[b]], &entries[left[a]], args)
        };
        proof {
            if a < left.len() {
                assert(rest_left[0] == left[a as int]);
                assert(rest_left.drop_first() =~= left@.skip(a + 1));
            }
            if b < right.len() {
                assert(rest_right[0] == right[b as int]);
                assert(rest_right.drop_first() =~= right@.skip(b + 1));
            }
        }
        if take_right {
            all.push(right[b]);
            b = b + 1;
            proof {
                let tail = merged(
                    left@.skip(a as int),
                    right@.skip(b as int),
                    entries.deep_view(),
                    *args,
                );
                if a >= left.len() {
                    lemma_merged_with_nothing(rest_right.drop_first(), entries.deep_view(), *args);
                    assert(rest_right =~= seq![rest_right[0]] + rest_right.drop_first());
                }
                assert(merged(rest_left, rest_right, entries.deep_view(), *args) =~= seq![
                    rest_right[0],
                ] + tail);
                assert(all@ + tail =~= before + (seq![rest_right[0]] + tail));
            }
        } else {
            all.push(left[a]);
            a = a + 1;
            proof {
                let tail = merged(
                    left@.skip(a as int),
                    right@.skip(b as int),
                    entries.deep_view(),
                    *args,
                );
                if b >= right.len() {
                    lemma_merged_with_nothing(rest_left.drop_first(), entries.deep_view(), *args);
                    assert(rest_left =~= seq![rest_left[0]] + rest_left.drop_first());
                }
                assert(merged(rest_left, rest_right, entries.deep_view(), *args) =~= seq![
                    rest_left[0],
                ] + tail);
                assert(all@ + tail =~= before + (seq![rest_left[0]] + tail));
            }
        }
    }
    assert(all@ + Seq::<usize>::empty() =~= all@);
    all
}

/// A run merged with an empty one stays as it is.
proof fn lemma_merged_with_nothing(run: Seq<usize>, entries: Seq<EntryModel>, args: LsArgs)
    ensures
        merged(run, Seq::empty(), entries, args) == run,
        merged(Seq::empty(), run, entries, args) == run,
{
}

/// Sorts the indices from `lo` up to `hi` into a run. The criterion has to
/// rank every entry.
pub fn sort_run(entries: &Vec<Entry>, lo: usize, hi: usize, args: &LsArgs) -> (run: Vec<usize>)
    requires
        lo <= hi <= entries.len(),
        all_ranked(entries.deep_view(), args.criterion_spec()),
    ensures
        is_run(run@, entries.deep_view(), *args),
        covers(run@, lo, hi),
    decreases hi - lo,
{
    if hi - lo <= 1 {
        let mut run: Vec<usize> = Vec::new();
        if hi > lo {
            run.push(lo);
            assert(run@[0] == lo);
        }
        run
    } else {
        let mid = lo + (hi - lo) / 2;
        let left = sort_run(entries, lo, mid, args);
        let right = sort_run(entries, mid, hi, args);
        let run = merge_runs(entries, &left, &right, args);
        proof {
            lemma_merged_is_run(left@, right@, entries.deep_view(), *args, mid);
            assert forall|i: int| 0 <= i < run.len() implies lo <= (#[trigger] run@[i]) < hi by {
                assert(run@.contains(run@[i]));
                if left@.contains(run@[i]) {
                    let k = choose|k: int| 0 <= k < left.len() && left@[k] == run@[i];
                } else {
                    let k = choose|k: int| 0 <= k < right.len() && right@[k] == run@[i];
                }
            }
            assert forall|k: usize| lo <= k < hi implies #[trigger] run@.contains(k) by {
                if k < mid {
                    assert(left@.contains(k));
                } else {
                    assert(right@.contains(k));
                }
            }
        }
        run
    }
}

/// A run of all indices is a stable arrangement of the entries, ordered
/// throughout.
pub proof fn lemma_run_is_arrangement(
    run: Seq<usize>,
    entries: Seq<EntryModel>,
    args: LsArgs,
    n: usize,
)
    requires
        n == entries.len(),
        is_run(run, entries, args),
        covers(run, 0, n),
    ensures
        crate::ls::sort::is_stable_arrangement(
            Seq::new(entries.len(), |i: int| entries[run[i] as int]),
            entries,
            as_order(run),
            args,
        ),
        crate::ls::sort::all_ordered(
            Seq::new(entries.len(), |i: int| entries[run[i] as int]),
            args,
        ),
{
    let order = as_order(run);
    let sorted = Seq::new(entries.len(), |i: int| entries[run[i] as int]);
    assert forall|k: int| 0 <= k < entries.len() implies #[trigger] order.contains(k) by {
        assert(run.contains(k as usize));
        let i = choose|i: int| 0 <= i < run.len() && run[i] == k as usize;
        assert(order[i] == k);
    }
    assert forall|i: int, j: int| 0 <= i < j < entries.len() implies #[trigger] order[i]
        != #[trigger] order[j] by {
        assert(run[i] != run[j]);
    }
    assert forall|i: int, j: int|
        0 <= i < j < entries.len() && order[i] > order[j] implies precedes(
        #[trigger] entries[order[i]],
        #[trigger] entries[order[j]],
        args,
    ) by {
        assert(run[i] > run[j]);
        assert(before_at(entries, run[i], run[j], args));
    }
    assert forall|i: int, j: int| 0 <= i < j < sorted.len() implies !precedes(
        #[trigger] sorted[j],
        #[trigger] sorted[i],
        args,
    ) by {
        assert(!before_at(entries, run[j], run[i], args));
    }
}

} // verus!
