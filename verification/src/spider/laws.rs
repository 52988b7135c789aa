//! What holds of every search and of every next search.

use crate::field::FieldKind;
use crate::process::{span, ProcessInterface};
use crate::spider::scanner::{
    children_from, lemma_children_shape, lemma_hits_shape, lemma_scan_stack_pushed, level_children,
    level_hits, scan_at, scan_each, scan_results, scan_stack,
};
use crate::spider::{live_value, pointer_in, refined, walk, Branch, FilterMode, Hit};
use crate::value::Value;
use vstd::prelude::*;

verus! {

/// Every hit of a search holds a value that equals the wanted one, and so
/// is of its kind; its path begins with the path of the search and is
/// longer by at most the number of hops.
pub proof fn lemma_scan_shape<P: ProcessInterface>(process: &P, branch: Branch, depth: nat)
    ensures
        forall|i: int|
            0 <= i < scan_at(process, branch, depth).len() ==> {
                let hit = #[trigger] scan_at(process, branch, depth)[i];
                &&& hit.value.same_number(branch.value)
                &&& hit.value.spec_kind() == branch.value.spec_kind()
                &&& branch.path.len() <= hit.path.len() <= branch.path.len() + depth
                &&& hit.path.take(branch.path.len() as int) == branch.path
            },
    decreases depth, 0nat,
{
    lemma_hits_shape(process, branch, 0);
    let own = level_hits(process, branch);
    assert forall|i: int| 0 <= i < own.len() implies (#[trigger] own[i]).path.take(
        branch.path.len() as int,
    ) == branch.path by {
        assert(own[i].path.take(own[i].path.len() as int) == own[i].path);
    }
    if depth > 0 {
        lemma_children_shape(process, branch, 0);
        lemma_scan_each_shape(process, branch, level_children(process, branch), (depth - 1) as nat);
    }
}

/// The same for the searches that a level starts.
pub proof fn lemma_scan_each_shape<P: ProcessInterface>(
    process: &P,
    parent: Branch,
    branches: Seq<Branch>,
    depth: nat,
)
    requires
        forall|i: int|
            0 <= i < branches.len() ==> {
                let child = #[trigger] branches[i];
                &&& child.value == parent.value
                &&& child.path.len() == parent.path.len() + 1
                &&& child.path.take(parent.path.len() as int) == parent.path
            },
    ensures
        forall|i: int|
            0 <= i < scan_each(process, branches, depth).len() ==> {
                let hit = #[trigger] scan_each(process, branches, depth)[i];
                &&& hit.value.same_number(parent.value)
                &&& hit.value.spec_kind() == parent.value.spec_kind()
                &&& parent.path.len() < hit.path.len() <= parent.path.len() + 1 + depth
                &&& hit.path.take(parent.path.len() as int) == parent.path
            },
    decreases depth, branches.len() + 1,
{
    if branches.len() > 0 {
        let first = branches.first();
        lemma_scan_shape(process, first, depth);
        assert forall|i: int| 0 <= i < branches.drop_first().len() implies {
            let child = #[trigger] branches.drop_first()[i];
            &&& child.value == parent.value
            &&& child.path.len() == parent.path.len() + 1
            &&& child.path.take(parent.path.len() as int) == parent.path
        } by {
            assert(branches.drop_first()[i] == branches[i + 1]);
        }
        lemma_scan_each_shape(process, parent, branches.drop_first(), depth);
        let head = scan_at(process, first, depth);
        assert forall|i: int| 0 <= i < head.len() implies (#[trigger] head[i]).path.take(
            parent.path.len() as int,
        ) == parent.path by {
            assert(head[i].path.take(first.path.len() as int).take(parent.path.len() as int)
                == head[i].path.take(parent.path.len() as int));
        }
    }
}

/// With no hop left a search does not descend, but it still reports the hits
/// in its own window.
pub proof fn lemma_last_level_is_probed<P: ProcessInterface>(process: &P, branch: Branch)
    requires
        branch.depth == 0,
    ensures
        scan_results(process, branch) == level_hits(process, branch),
        level_children(process, branch).len() == 0,
{
    lemma_children_shape(process, branch, 0);
}

/// The address of the slot that a result names, with the outermost
/// structure at `base`: the path is walked and the offset added.
pub open spec fn slot_of<P: ProcessInterface>(process: &P, base: usize, hit: Hit) -> usize {
    walk(process, base, hit.path, hit.path.len()).wrapping_add(hit.offset)
}

/// The value that lies in the slot that a result names.
pub open spec fn slot_value<P: ProcessInterface>(process: &P, base: usize, hit: Hit) -> Value {
    Value::decoded(hit.value.spec_kind(), span(process, slot_of(process, base, hit), 8), process.order())
}

/// Every structure on the way along `path` begins at a multiple of
/// `alignment`, so that its window begins where it begins.
pub open spec fn chain_aligned<P: ProcessInterface>(
    process: &P,
    base: usize,
    path: Seq<usize>,
    alignment: usize,
) -> bool {
    forall|hops: nat|
        hops <= path.len() ==> #[trigger] walk(process, base, path, hops) % alignment == 0
}

/// A walk looks at the offsets of its hops only.
pub proof fn lemma_walk_prefix<P: ProcessInterface>(
    process: &P,
    base: usize,
    short: Seq<usize>,
    long: Seq<usize>,
    hops: nat,
)
    requires
        hops <= short.len() <= long.len(),
        long.take(short.len() as int) == short,
    ensures
        walk(process, base, short, hops) == walk(process, base, long, hops),
    decreases hops,
{
    if hops > 0 {
        lemma_walk_prefix(process, base, short, long, (hops - 1) as nat);
        assert(long.take(short.len() as int)[hops - 1] == long[hops - 1]);
    }
}

/// A result of a search names the slot in which its value was seen: where
/// the search stands on the way from `base` along its own path, and every
/// structure on the way to a result is aligned, the value of the result is
/// the value in the slot that the result names.
pub proof fn lemma_results_name_their_slot<P: ProcessInterface>(
    process: &P,
    base: usize,
    branch: Branch,
    depth: nat,
)
    requires
        branch.well_formed(),
        branch.address == walk(process, base, branch.path, branch.path.len()),
    ensures
        forall|i: int|
            0 <= i < scan_at(process, branch, depth).len() ==> {
                let hit = #[trigger] scan_at(process, branch, depth)[i];
                chain_aligned(process, base, hit.path, branch.alignment) ==> hit.value
                    == slot_value(process, base, hit) && hit.value.same_number(branch.value)
            },
    decreases depth, 0nat,
{
    lemma_hits_shape(process, branch, 0);
    let own = level_hits(process, branch);
    assert forall|i: int| 0 <= i < own.len() implies {
        let hit = #[trigger] own[i];
        chain_aligned(process, base, hit.path, branch.alignment) ==> hit.value == slot_value(
            process,
            base,
            hit,
        ) && hit.value.same_number(branch.value)
    } by {
        let hit = own[i];
        if chain_aligned(process, base, hit.path, branch.alignment) {
            assert(walk(process, base, branch.path, branch.path.len()) % branch.alignment == 0);
            assert(branch.window_start() == branch.address);
        }
    }
    if depth > 0 {
        lemma_children_shape(process, branch, 0);
        lemma_children_slots(process, branch, 0);
        lemma_each_names_its_slot(
            process,
            base,
            branch,
            level_children(process, branch),
            (depth - 1) as nat,
        );
    }
}

/// Every search that a level starts begins at the address that lies in a
/// slot of the level, at the offset that its path ends with.
pub proof fn lemma_children_slots<P: ProcessInterface>(process: &P, branch: Branch, offset: int)
    ensures
        forall|i: int|
            0 <= i < children_from(process, branch, offset).len() ==> {
                let child = #[trigger] children_from(process, branch, offset)[i];
                &&& child.path.len() == branch.path.len() + 1
                &&& child.address == pointer_in(
                    span(process, branch.slot(child.path.last()), 8),
                    process.order(),
                )
            },
    decreases
        (if offset < branch.struct_size {
            branch.struct_size - offset
        } else {
            0
        }),
{
    if offset < 0 || offset >= branch.struct_size || branch.alignment == 0 {
    } else {
        lemma_children_slots(process, branch, offset + branch.alignment);
    }
}

/// The same for the searches that a level starts.
pub proof fn lemma_each_names_its_slot<P: ProcessInterface>(
    process: &P,
    base: usize,
    parent: Branch,
    branches: Seq<Branch>,
    depth: nat,
)
    requires
        parent.well_formed(),
        parent.address == walk(process, base, parent.path, parent.path.len()),
        forall|i: int|
            0 <= i < branches.len() ==> {
                let child = #[trigger] branches[i];
                &&& child.value == parent.value
                &&& child.alignment == parent.alignment
                &&& child.path.len() == parent.path.len() + 1
                &&& child.path.take(parent.path.len() as int) == parent.path
                &&& child.address == pointer_in(
                    span(process, parent.slot(child.path.last()), 8),
                    process.order(),
                )
            },
    ensures
        forall|i: int|
            0 <= i < scan_each(process, branches, depth).len() ==> {
                let hit = #[trigger] scan_each(process, branches, depth)[i];
                chain_aligned(process, base, hit.path, parent.alignment) ==> hit.value
                    == slot_value(process, base, hit) && hit.value.same_number(parent.value)
            },
    decreases depth, branches.len() + 1,
{
    if branches.len() > 0 {
        let first = branches.first();
        let below = scan_at(process, first, depth);
        assert forall|i: int| 0 <= i < branches.drop_first().len() implies {
            let child = #[trigger] branches.drop_first()[i];
            &&& child.value == parent.value
            &&& child.alignment == parent.alignment
            &&& child.path.len() == parent.path.len() + 1
            &&& child.path.take(parent.path.len() as int) == parent.path
            &&& child.address == pointer_in(
                span(process, parent.slot(child.path.last()), 8),
                process.order(),
            )
        } by {
            assert(branches.drop_first()[i] == branches[i + 1]);
        }
        lemma_each_names_its_slot(process, base, parent, branches.drop_first(), depth);
        lemma_scan_shape(process, first, depth);
        assert forall|i: int| 0 <= i < below.len() implies {
            let hit = #[trigger] below[i];
            chain_aligned(process, base, hit.path, parent.alignment) ==> hit.value == slot_value(
                process,
                base,
                hit,
            ) && hit.value.same_number(parent.value)
        } by {
            let hit = below[i];
            if chain_aligned(process, base, hit.path, parent.alignment) {
                let n = parent.path.len();
                // The parent lies on the way to the result, so it is aligned.
                assert(hit.path.take(first.path.len() as int).take(n as int) == hit.path.take(
                    n as int,
                ));
                lemma_walk_prefix(process, base, parent.path, hit.path, n);
                assert(walk(process, base, hit.path, n) % parent.alignment == 0);
                assert(parent.window_start() == parent.address);
                // So the child begins where the walk along its path ends.
                lemma_walk_prefix(process, base, parent.path, first.path, n);
                assert(first.path[n as int] == first.path.last());
                assert(first.address == walk(process, base, first.path, first.path.len()));
                lemma_results_name_their_slot(process, base, first, depth);
            }
        }
    }
}

/// All hits hold a value of `kind`.
pub open spec fn all_of_kind(hits: Seq<Hit>, kind: FieldKind) -> bool {
    forall|i: int| 0 <= i < hits.len() ==> (#[trigger] hits[i]).value.spec_kind() == kind
}

/// What is left after a next search holds values of the kind that the hits
/// held before.
pub proof fn lemma_refined_keeps_kind<P: ProcessInterface>(
    process: &P,
    base: usize,
    filter: FilterMode,
    wanted: Value,
    hits: Seq<Hit>,
    kind: FieldKind,
)
    requires
        all_of_kind(hits, kind),
        kind.is_numeric(),
    ensures
        all_of_kind(refined(process, base, filter, wanted, hits), kind),
        refined(process, base, filter, wanted, hits).len() <= hits.len(),
    decreases hits.len(),
{
    if hits.len() > 0 {
        assert forall|i: int| 0 <= i < hits.drop_first().len() implies (
        #[trigger] hits.drop_first()[i]).value.spec_kind() == kind by {
            assert(hits.drop_first()[i] == hits[i + 1]);
        }
        lemma_refined_keeps_kind(process, base, filter, wanted, hits.drop_first(), kind);
        assert(hits.first() == hits[0]);
    }
}

/// Under `Equal`, a next search keeps every result whose value now equals
/// the wanted one, and so all of them where all do; it keeps none where
/// none does.
pub proof fn lemma_equal_keeps_matches<P: ProcessInterface>(
    process: &P,
    base: usize,
    wanted: Value,
    hits: Seq<Hit>,
)
    ensures
        (forall|i: int|
            0 <= i < hits.len() ==> live_value(
                process,
                base,
                #[trigger] hits[i],
            ).same_number(wanted)) ==> {
            &&& refined(process, base, FilterMode::Equal, wanted, hits).len() == hits.len()
            &&& forall|i: int|
                0 <= i < hits.len() ==> {
                    let kept = #[trigger] refined(process, base, FilterMode::Equal, wanted, hits)[i];
                    &&& kept.path == hits[i].path
                    &&& kept.offset == hits[i].offset
                    &&& kept.value == live_value(process, base, hits[i])
                }
        },
        (forall|i: int|
            0 <= i < hits.len() ==> !live_value(
                process,
                base,
                #[trigger] hits[i],
            ).same_number(wanted)) ==> refined(process, base, FilterMode::Equal, wanted, hits).len()
            == 0,
    decreases hits.len(),
{
    if hits.len() > 0 {
        let rest = hits.drop_first();
        lemma_equal_keeps_matches(process, base, wanted, rest);
        assert(hits.first() == hits[0]);
        assert forall|i: int| 0 <= i < rest.len() implies #[trigger] rest[i] == hits[i + 1] by {}
        if forall|i: int|
            0 <= i < hits.len() ==> live_value(
                process,
                base,
                #[trigger] hits[i],
            ).same_number(wanted) {
            assert forall|i: int| 0 <= i < rest.len() implies live_value(
                process,
                base,
                #[trigger] rest[i],
            ).same_number(wanted) by {
                assert(rest[i] == hits[i + 1]);
            }
            let kept = refined(process, base, FilterMode::Equal, wanted, hits);
            let below = refined(process, base, FilterMode::Equal, wanted, rest);
            assert forall|i: int| 0 <= i < hits.len() implies {
                let k = #[trigger] kept[i];
                &&& k.path == hits[i].path
                &&& k.offset == hits[i].offset
                &&& k.value == live_value(process, base, hits[i])
            } by {
                if i > 0 {
                    assert(kept[i] == below[i - 1]);
                    assert(rest[i - 1] == hits[i]);
                }
            }
        }
        if forall|i: int|
            0 <= i < hits.len() ==> !live_value(
                process,
                base,
                #[trigger] hits[i],
            ).same_number(wanted) {
            assert forall|i: int| 0 <= i < rest.len() implies !live_value(
                process,
                base,
                #[trigger] rest[i],
            ).same_number(wanted) by {
                assert(rest[i] == hits[i + 1]);
            }
        }
    }
}

/// A result whose value is no longer the one seen last stays under
/// `Changed` and goes under `Unchanged`; one whose value is the same goes
/// under `Changed` and stays under `Unchanged`. The wanted value has no say.
pub proof fn lemma_changed_and_unchanged(current: Value, last: Value, wanted: Value)
    ensures
        FilterMode::Changed.keeps(current, last, wanted) == !current.same_number(last),
        FilterMode::Unchanged.keeps(current, last, wanted) == current.same_number(last),
        FilterMode::Changed.keeps(current, last, wanted) != FilterMode::Unchanged.keeps(
            current,
            last,
            wanted,
        ),
{
}

/// Running a branch settles it, in whatever order branches are run: the
/// hits of its level, together with what the branches that it starts and
/// the branches that wait will find, are what the branch itself and the
/// branches that wait would have found. So a search collects the same
/// results whichever of its branches is run next.
pub proof fn lemma_running_a_branch_settles_it<P: ProcessInterface>(
    process: &P,
    branch: Branch,
    waiting: Seq<Branch>,
)
    ensures
        level_hits(process, branch) + scan_stack(
            process,
            waiting + level_children(process, branch).reverse(),
        ) == scan_results(process, branch) + scan_stack(process, waiting),
{
    let started = level_children(process, branch);
    lemma_children_shape(process, branch, 0);
    if branch.depth == 0 {
        assert(waiting + started.reverse() == waiting);
    } else {
        lemma_scan_stack_pushed(process, waiting, started, (branch.depth - 1) as nat);
        let hits = level_hits(process, branch);
        let below = scan_each(process, started, (branch.depth - 1) as nat);
        assert(hits + (below + scan_stack(process, waiting)) == (hits + below) + scan_stack(
            process,
            waiting,
        ));
    }
}

/// What the branches on a stack find is what those on top find, and then
/// what those below find: the stack can be worked off in parts.
pub proof fn lemma_scan_stack_splits<P: ProcessInterface>(
    process: &P,
    below: Seq<Branch>,
    above: Seq<Branch>,
)
    ensures
        scan_stack(process, below + above) == scan_stack(process, above) + scan_stack(
            process,
            below,
        ),
    decreases above.len(),
{
    if above.len() == 0 {
        assert(below + above == below);
        assert(scan_stack(process, above) + scan_stack(process, below) == scan_stack(
            process,
            below,
        ));
    } else {
        let whole = below + above;
        assert(whole.last() == above.last());
        assert(whole.drop_last() == below + above.drop_last());
        lemma_scan_stack_splits(process, below, above.drop_last());
        let top = scan_results(process, above.last());
        assert(top + (scan_stack(process, above.drop_last()) + scan_stack(process, below)) == (top
            + scan_stack(process, above.drop_last())) + scan_stack(process, below));
    }
}

} // verus!
