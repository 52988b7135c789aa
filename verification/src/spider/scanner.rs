//! The first search.

use crate::process::{read_word, span, ProcessInterface};
use crate::spider::report::{shallow_first, sort_by_depth};
use crate::spider::{
    branches_of, hits_of, pointer_in, share, word_to_pointer, Branch, Hit, SearchOptions,
    SearchResult,
};
use crate::value::{bytes_to_value, Value};
use std::sync::Arc;
use std::time::{Duration, Instant};
use vstd::prelude::*;

verus! {

impl Branch {
    /// A search can run on these options: the step is at least one byte.
    pub open spec fn well_formed(self) -> bool {
        self.alignment >= 1
    }

    /// Where the probed window begins: `address`, rounded up to a multiple
    /// of `alignment`.
    pub open spec fn window_start(self) -> usize {
        if self.address % self.alignment == 0 {
            self.address
        } else {
            self.address.wrapping_add((self.alignment - self.address % self.alignment) as usize)
        }
    }

    /// The address of the slot `offset` bytes into the window.
    pub open spec fn slot(self, offset: usize) -> usize {
        self.window_start().wrapping_add(offset)
    }
}

/// The eight bytes read at `offset`.
pub open spec fn word_at<P: ProcessInterface>(process: &P, branch: Branch, offset: usize) -> Seq<
    u8,
> {
    span(process, branch.slot(offset), 8)
}

/// The value of the wanted kind that lies at `offset`.
pub open spec fn found_at<P: ProcessInterface>(process: &P, branch: Branch, offset: usize) -> Value {
    Value::decoded(branch.value.spec_kind(), word_at(process, branch, offset), process.order())
}

/// The slot at `offset` holds the wanted value.
pub open spec fn is_hit<P: ProcessInterface>(process: &P, branch: Branch, offset: usize) -> bool {
    found_at(process, branch, offset).same_number(branch.value)
}

/// The result that a hit at `offset` is reported as.
pub open spec fn hit_at<P: ProcessInterface>(process: &P, branch: Branch, offset: usize) -> Hit {
    Hit { path: branch.path, offset, value: found_at(process, branch, offset) }
}

/// The slot at `offset` is followed as a pointer: hops are left, the offset
/// is a multiple of eight, and the address in the slot may be read.
pub open spec fn is_followed<P: ProcessInterface>(
    process: &P,
    branch: Branch,
    offset: usize,
) -> bool {
    &&& branch.depth > 0
    &&& offset % 8 == 0
    &&& process.readable(pointer_in(word_at(process, branch, offset), process.order()))
}

/// The search one level deeper, behind the pointer at `offset`.
pub open spec fn child_at<P: ProcessInterface>(process: &P, branch: Branch, offset: usize) -> Branch {
    Branch {
        path: branch.path.push(offset),
        struct_size: branch.struct_size,
        alignment: branch.alignment,
        address: pointer_in(word_at(process, branch, offset), process.order()),
        depth: (branch.depth - 1) as usize,
        value: branch.value,
    }
}

/// The hits of one level at `offset` and behind it, in ascending order.
pub open spec fn hits_from<P: ProcessInterface>(process: &P, branch: Branch, offset: int) -> Seq<
    Hit,
>
    decreases
        (if offset < branch.struct_size {
            branch.struct_size - offset
        } else {
            0
        }),
{
    if offset < 0 || offset >= branch.struct_size || branch.alignment == 0 {
        Seq::empty()
    } else {
        let here = if is_hit(process, branch, offset as usize) {
            seq![hit_at(process, branch, offset as usize)]
        } else {
            Seq::empty()
        };
        here + hits_from(process, branch, offset + branch.alignment)
    }
}

/// The searches that one level starts at `offset` and behind it.
pub open spec fn children_from<P: ProcessInterface>(
    process: &P,
    branch: Branch,
    offset: int,
) -> Seq<Branch>
    decreases
        (if offset < branch.struct_size {
            branch.struct_size - offset
        } else {
            0
        }),
{
    if offset < 0 || offset >= branch.struct_size || branch.alignment == 0 {
        Seq::empty()
    } else {
        let here = if is_followed(process, branch, offset as usize) {
            seq![child_at(process, branch, offset as usize)]
        } else {
            Seq::empty()
        };
        here + children_from(process, branch, offset + branch.alignment)
    }
}

/// The hits in the window of one level: every `alignment`-th offset below
/// `struct_size` whose slot holds the wanted value.
pub open spec fn level_hits<P: ProcessInterface>(process: &P, branch: Branch) -> Seq<Hit> {
    hits_from(process, branch, 0)
}

/// The searches that one level starts: one behind every followed pointer.
pub open spec fn level_children<P: ProcessInterface>(process: &P, branch: Branch) -> Seq<Branch> {
    children_from(process, branch, 0)
}

/// The list of offsets with one more at its end.
pub fn extend_path(path: &Arc<Vec<usize>>, offset: usize) -> (longer: Arc<Vec<usize>>)
    ensures
        longer@ == path@.push(offset),
{
    let mut copy: Vec<usize> = Vec::new();
    let mut i: usize = 0;
    while i < path.len()
        invariant
            i <= path@.len(),
            copy@ == path@.take(i as int),
        decreases path@.len() - i,
    {
        copy.push(path[i]);
        i += 1;
    }
    copy.push(offset);
    assert(path@.take(path@.len() as int) == path@);
    Arc::new(copy)
}

/// What the probing of one level brings: the hits in its window and the
/// searches to run one level deeper.
pub struct LevelOutcome {
    pub hits: Vec<SearchResult>,
    pub children: Vec<SearchOptions>,
}

impl SearchOptions {
    /// A search can run on these options: the step is at least one byte.
    pub open spec fn well_formed(&self) -> bool {
        self@.well_formed()
    }

    /// Where the probed window begins: `address`, rounded up to a multiple
    /// of `alignment`.
    pub fn window_start(&self) -> (start: usize)
        requires
            self.well_formed(),
        ensures
            start == self@.window_start(),
    {
        let rest: usize = self.address % self.alignment;
        if rest == 0 {
            self.address
        } else {
            self.address.wrapping_add(self.alignment - rest)
        }
    }
}

/// Probes the window of one level: every `alignment`-th offset below
/// `struct_size`, from the aligned start. Eight bytes are read at each. Where
/// hops are left and the offset is a multiple of eight, a word that holds a
/// readable address starts a search one level deeper; a word that begins
/// with the wanted value is a hit.
pub fn scan_level<P: ProcessInterface>(process: &P, opts: &SearchOptions) -> (outcome: LevelOutcome)
    requires
        opts.well_formed(),
    ensures
        hits_of(outcome.hits@) == level_hits(process, opts@),
        branches_of(outcome.children@) == level_children(process, opts@),
{
    let start: usize = opts.window_start();
    let order = process.byte_order();
    let kind = opts.value.kind();
    let mut hits: Vec<SearchResult> = Vec::new();
    let mut children: Vec<SearchOptions> = Vec::new();
    let mut offset: usize = 0;
    while offset < opts.struct_size
        invariant
            opts.well_formed(),
            start == opts@.window_start(),
            order == process.order(),
            kind == opts.value.spec_kind(),
            kind.is_numeric(),
            offset <= opts.struct_size,
            hits_of(hits@) + hits_from(process, opts@, offset as int) == level_hits(
                process,
                opts@,
            ),
            branches_of(children@) + children_from(process, opts@, offset as int)
                == level_children(process, opts@),
        decreases opts.struct_size - offset,
    {
        let ghost hits_before = hits_of(hits@);
        let ghost children_before = branches_of(children@);
        let word: [u8; 8] = read_word(process, start.wrapping_add(offset));
        assert(word@ == word_at(process, opts@, offset));
        if opts.depth > 0 && offset % 8 == 0 {
            let pointer: usize = word_to_pointer(&word, order);
            if process.can_read(pointer) {
                children.push(
                    SearchOptions {
                        offsets: extend_path(&opts.offsets, offset),
                        struct_size: opts.struct_size,
                        alignment: opts.alignment,
                        address: pointer,
                        depth: opts.depth - 1,
                        value: opts.value,
                    },
                );
                assert(branches_of(children@) == children_before.push(
                    child_at(process, opts@, offset),
                ));
            }
        }
        let value: Value = bytes_to_value(&word, kind, order);
        if value == opts.value {
            hits.push(
                SearchResult {
                    parent_offsets: share(&opts.offsets),
                    offset,
                    last_value: value,
                },
            );
            assert(hits_of(hits@) == hits_before.push(hit_at(process, opts@, offset)));
        }
        let ghost next: int = offset + opts.alignment;
        assert(hits_of(hits@) + hits_from(process, opts@, next) == level_hits(process, opts@));
        assert(branches_of(children@) + children_from(process, opts@, next) == level_children(
            process,
            opts@,
        ));
        if opts.struct_size - offset <= opts.alignment {
            offset = opts.struct_size;
        } else {
            offset = offset + opts.alignment;
        }
    }
    assert(hits_of(hits@) + Seq::<Hit>::empty() == hits_of(hits@));
    assert(branches_of(children@) + Seq::<Branch>::empty() == branches_of(children@));
    LevelOutcome { hits, children }
}

/// What a search from `branch` finds with `depth` hops left: the hits of its
/// own level, then what each of the searches it starts finds, in the order
/// of their offsets.
pub open spec fn scan_at<P: ProcessInterface>(process: &P, branch: Branch, depth: nat) -> Seq<Hit>
    decreases depth, 0nat,
{
    if depth == 0 {
        level_hits(process, branch)
    } else {
        level_hits(process, branch) + scan_each(
            process,
            level_children(process, branch),
            (depth - 1) as nat,
        )
    }
}

/// What the searches from `branches` find, one after the other, each with
/// `depth` hops left.
pub open spec fn scan_each<P: ProcessInterface>(
    process: &P,
    branches: Seq<Branch>,
    depth: nat,
) -> Seq<Hit>
    decreases depth, branches.len() + 1,
{
    if branches.len() == 0 {
        Seq::empty()
    } else {
        scan_at(process, branches.first(), depth) + scan_each(
            process,
            branches.drop_first(),
            depth,
        )
    }
}

/// Everything that a search on these options finds.
pub open spec fn scan_results<P: ProcessInterface>(process: &P, branch: Branch) -> Seq<Hit> {
    scan_at(process, branch, branch.depth as nat)
}

/// The searches that a level starts keep its step, window and wanted value,
/// and have one hop less.
pub proof fn lemma_children_shape<P: ProcessInterface>(process: &P, branch: Branch, offset: int)
    ensures
        forall|i: int|
            0 <= i < children_from(process, branch, offset).len() ==> {
                let child = #[trigger] children_from(process, branch, offset)[i];
                &&& child.alignment == branch.alignment
                &&& child.struct_size == branch.struct_size
                &&& child.value == branch.value
                &&& child.depth + 1 == branch.depth
                &&& child.path.len() == branch.path.len() + 1
                &&& child.path.take(branch.path.len() as int) == branch.path
            },
        branch.depth == 0 ==> children_from(process, branch, offset).len() == 0,
    decreases
        (if offset < branch.struct_size {
            branch.struct_size - offset
        } else {
            0
        }),
{
    if offset < 0 || offset >= branch.struct_size || branch.alignment == 0 {
    } else {
        lemma_children_shape(process, branch, offset + branch.alignment);
    }
}

/// Every hit of a level carries the level's path, lies in its window and
/// holds a value that equals the wanted one.
pub proof fn lemma_hits_shape<P: ProcessInterface>(process: &P, branch: Branch, offset: int)
    ensures
        forall|i: int|
            0 <= i < hits_from(process, branch, offset).len() ==> {
                let hit = #[trigger] hits_from(process, branch, offset)[i];
                &&& hit.path == branch.path
                &&& hit.value.same_number(branch.value)
                &&& hit.value == found_at(process, branch, hit.offset)
                &&& offset <= hit.offset < branch.struct_size
            },
    decreases
        (if offset < branch.struct_size {
            branch.struct_size - offset
        } else {
            0
        }),
{
    if offset < 0 || offset >= branch.struct_size || branch.alignment == 0 {
    } else {
        lemma_hits_shape(process, branch, offset + branch.alignment);
    }
}

/// Searches the window at `opts.address` and, behind every pointer that is
/// followed, the window one level deeper, as far as `opts.depth` allows.
/// With no hop left the level is still probed. The hits are added to
/// `results`: those of a level first, then those behind its pointers.
pub fn recursive_first_search<P: ProcessInterface>(
    process: &P,
    results: &mut Vec<SearchResult>,
    opts: &SearchOptions,
)
    requires
        opts.well_formed(),
    ensures
        hits_of(final(results)@) == hits_of(old(results)@) + scan_results(process, opts@),
    decreases opts.depth,
{
    let ghost before = hits_of(results@);
    let LevelOutcome { mut hits, children } = scan_level(process, opts);
    let ghost level = hits_of(hits@);
    results.append(&mut hits);
    assert(hits_of(results@) == before + level);
    proof {
        lemma_children_shape(process, opts@, 0);
    }
    if opts.depth == 0 {
        assert(children@.len() == 0);
        return ;
    }
    let ghost below: nat = (opts.depth - 1) as nat;
    proof {
        let started = level_children(process, opts@);
        assert forall|k: int| 0 <= k < children@.len() implies (#[trigger] children@[k]).well_formed()
            && children@[k].depth == below by {
            assert(branches_of(children@)[k] == children@[k]@);
            assert(started[k].alignment == opts.alignment);
        }
        assert(branches_of(children@).skip(0) == started);
        assert((before + level) + scan_each(process, started, below) == before + (level
            + scan_each(process, started, below)));
    }
    let mut i: usize = 0;
    while i < children.len()
        invariant
            i <= children@.len(),
            opts.depth > 0,
            below == opts.depth - 1,
            branches_of(children@) == level_children(process, opts@),
            forall|k: int|
                0 <= k < children@.len() ==> (#[trigger] children@[k]).well_formed()
                    && children@[k].depth == below,
            hits_of(results@) + scan_each(process, branches_of(children@).skip(i as int), below)
                == before + scan_results(process, opts@),
        decreases children@.len() - i,
    {
        let ghost rest = branches_of(children@).skip(i as int);
        assert(rest.first() == children@[i as int]@);
        assert(rest.drop_first() == branches_of(children@).skip(i + 1));
        recursive_first_search(process, results, &children[i]);
        i += 1;
    }
    assert(branches_of(children@).skip(i as int).len() == 0);
}

/// What the searches on a stack find, the one pushed last first.
pub open spec fn scan_stack<P: ProcessInterface>(process: &P, stack: Seq<Branch>) -> Seq<Hit>
    decreases stack.len(),
{
    if stack.len() == 0 {
        Seq::empty()
    } else {
        scan_results(process, stack.last()) + scan_stack(process, stack.drop_last())
    }
}

/// Searches pushed in reverse are run in their order before the rest of the
/// stack.
pub proof fn lemma_scan_stack_pushed<P: ProcessInterface>(
    process: &P,
    rest: Seq<Branch>,
    branches: Seq<Branch>,
    depth: nat,
)
    requires
        forall|i: int| 0 <= i < branches.len() ==> (#[trigger] branches[i]).depth == depth,
    ensures
        scan_stack(process, rest + branches.reverse()) == scan_each(process, branches, depth)
            + scan_stack(process, rest),
    decreases branches.len(),
{
    if branches.len() == 0 {
        assert(rest + branches.reverse() == rest);
        assert(scan_each(process, branches, depth) + scan_stack(process, rest) == scan_stack(
            process,
            rest,
        ));
    } else {
        let first = branches.first();
        let tail = branches.drop_first();
        let below = rest + tail.reverse();
        let whole = rest + branches.reverse();
        assert(whole.last() == first);
        assert(whole.drop_last() == below);
        lemma_scan_stack_pushed(process, rest, tail, depth);
        assert(scan_at(process, first, depth) + (scan_each(process, tail, depth) + scan_stack(
            process,
            rest,
        )) == (scan_at(process, first, depth) + scan_each(process, tail, depth)) + scan_stack(
            process,
            rest,
        ));
    }
}

#[verifier::external_type_specification]
#[verifier::external_body]
pub struct ExInstant(Instant);

/// `Instant::now`: the clock as it stands. Nothing is known of the reading.
#[verifier::external_body]
fn clock() -> Instant {
    Instant::now()
}

/// `Instant::elapsed`: the time gone by since `start`. Nothing is known of
/// it.
#[verifier::external_body]
fn time_since(start: &Instant) -> Duration {
    start.elapsed()
}

/// What a scanner answers when it is asked for its results.
pub enum ScannerReport {
    /// The search is over: the time it took and what it found, the results
    /// with the fewest hops first.
    Finished(Duration, Vec<SearchResult>),
    /// Branches of the search are still in flight.
    InProgress,
    /// No search was begun, or its results were already taken.
    Idle,
}

/// A search in progress. The branches of a search are units of work: each
/// is one level to probe. A branch is in flight from the moment it is
/// queued until its hits and the branches it starts have been taken in, so
/// that nothing is in flight only when the whole search is over.
///
/// A search that was begun cannot be called off. It runs to its end, and
/// the caller can only drop what it reports.
pub struct ScannerState {
    results: Vec<SearchResult>,
    pending: Vec<SearchOptions>,
    running: usize,
    start: Instant,
    active: bool,
}

impl ScannerState {
    /// The scanner is in order: every waiting branch can be run, and an idle
    /// scanner holds nothing.
    pub closed spec fn well_formed(self) -> bool {
        &&& forall|i: int| 0 <= i < self.pending@.len() ==> (#[trigger] self.pending@[i]).well_formed()
        &&& !self.active ==> self.pending@.len() == 0 && self.results@.len() == 0 && self.running
            == 0
    }

    /// A search was begun and its results were not taken yet.
    pub closed spec fn is_active(self) -> bool {
        self.active
    }

    /// The hits taken in so far.
    pub closed spec fn collected(self) -> Seq<Hit> {
        hits_of(self.results@)
    }

    /// The branches that wait to be run; the last one is run next.
    pub closed spec fn waiting(self) -> Seq<Branch> {
        branches_of(self.pending@)
    }

    /// The number of branches handed out by `checkout` and not yet handed
    /// back to `complete`.
    pub closed spec fn handed_out(self) -> nat {
        self.running as nat
    }

    /// The number of branches in flight.
    pub open spec fn in_flight(self) -> nat {
        self.waiting().len() + self.handed_out()
    }

    /// What the scanner will have collected once the waiting branches have
    /// run.
    pub open spec fn promised<P: ProcessInterface>(self, process: &P) -> Seq<Hit> {
        self.collected() + scan_stack(process, self.waiting())
    }

    /// A scanner that has nothing to do.
    pub fn new() -> (scanner: ScannerState)
        ensures
            scanner.well_formed(),
            !scanner.is_active(),
            scanner.collected().len() == 0,
            scanner.waiting().len() == 0,
            scanner.handed_out() == 0,
    {
        ScannerState {
            results: Vec::new(),
            pending: Vec::new(),
            running: 0,
            start: clock(),
            active: false,
        }
    }

    /// Whether a search was begun and its results were not taken yet.
    pub fn active(&self) -> (active: bool)
        ensures
            active == self.is_active(),
    {
        self.active
    }

    /// Begins a search: the scanner becomes active and the root branch is in
    /// flight. A scanner that is active already goes on with the search it
    /// has, and says so by `false`.
    pub fn begin(&mut self, options: SearchOptions) -> (begun: bool)
        requires
            old(self).well_formed(),
            options.well_formed(),
        ensures
            final(self).well_formed(),
            begun == !old(self).is_active(),
            begun ==> {
                &&& final(self).is_active()
                &&& final(self).collected() == Seq::<Hit>::empty()
                &&& final(self).waiting() == seq![options@]
                &&& final(self).handed_out() == 0
            },
            !begun ==> *final(self) == *old(self),
    {
        if self.active {
            return false;
        }
        let mut pending: Vec<SearchOptions> = Vec::new();
        pending.push(options);
        assert(branches_of(pending@) == seq![options@]);
        *self = ScannerState {
            results: Vec::new(),
            pending,
            running: 0,
            start: clock(),
            active: true,
        };
        assert(hits_of(self.results@) == Seq::<Hit>::empty());
        true
    }

    /// Hands out the branch to run next, if one waits. It stays in flight
    /// until its outcome comes back through `complete`.
    pub fn checkout(&mut self) -> (branch: Option<SearchOptions>)
        requires
            old(self).well_formed(),
        ensures
            final(self).well_formed(),
            match branch {
                Some(options) => {
                    &&& old(self).waiting().len() > 0
                    &&& old(self).handed_out() < usize::MAX
                    &&& options@ == old(self).waiting().last()
                    &&& options.well_formed()
                    &&& final(self).waiting() == old(self).waiting().drop_last()
                    &&& final(self).handed_out() == old(self).handed_out() + 1
                },
                None => {
                    &&& old(self).waiting().len() == 0 || old(self).handed_out() == usize::MAX
                    &&& final(self).waiting() == old(self).waiting()
                    &&& final(self).handed_out() == old(self).handed_out()
                },
            },
            final(self).is_active() == old(self).is_active(),
            final(self).collected() == old(self).collected(),
    {
        if self.pending.len() == 0 || self.running == usize::MAX {
            return None;
        }
        let ghost before = self.pending@;
        let options = self.pending.pop().unwrap();
        self.running = self.running + 1;
        assert(branches_of(self.pending@) == branches_of(before).drop_last());
        assert(branches_of(before).last() == options@);
        Some(options)
    }

    /// Takes in the outcome of a branch that was handed out: its hits are
    /// collected and the branches it starts are in flight before it leaves
    /// the count. Where no branch is handed out the outcome is dropped, and
    /// the answer is `false`.
    pub fn complete(&mut self, outcome: LevelOutcome) -> (taken: bool)
        requires
            old(self).well_formed(),
            forall|i: int|
                0 <= i < outcome.children@.len() ==> (#[trigger] outcome.children@[i]).well_formed(),
        ensures
            final(self).well_formed(),
            taken == (old(self).handed_out() > 0),
            taken ==> {
                &&& final(self).collected() == old(self).collected() + hits_of(outcome.hits@)
                &&& final(self).waiting() == old(self).waiting() + branches_of(
                    outcome.children@,
                ).reverse()
                &&& final(self).handed_out() == old(self).handed_out() - 1
            },
            !taken ==> {
                &&& final(self).collected() == old(self).collected()
                &&& final(self).waiting() == old(self).waiting()
                &&& final(self).handed_out() == old(self).handed_out()
            },
            final(self).is_active() == old(self).is_active(),
    {
        if self.running == 0 {
            return false;
        }
        let LevelOutcome { mut hits, mut children } = outcome;
        let ghost started = branches_of(children@);
        let ghost rest = branches_of(self.pending@);
        let ghost collected = hits_of(self.results@);
        let ghost found = hits_of(hits@);
        self.results.append(&mut hits);
        assert(hits_of(self.results@) == collected + found);
        assert(rest + started.skip(started.len() as int).reverse() == rest);
        while children.len() > 0
            invariant
                branches_of(children@) == started.take(children@.len() as int),
                children@.len() <= started.len(),
                branches_of(self.pending@) == rest + started.skip(children@.len() as int).reverse(),
                forall|i: int|
                    0 <= i < children@.len() ==> (#[trigger] children@[i]).well_formed(),
                forall|i: int|
                    0 <= i < self.pending@.len() ==> (#[trigger] self.pending@[i]).well_formed(),
                self.active,
                self.running == old(self).running,
                self.running > 0,
                hits_of(self.results@) == collected + found,
            decreases children@.len(),
        {
            let ghost n = children@.len() as int;
            let ghost queue = branches_of(self.pending@);
            let ghost left = children@;
            let child = children.pop().unwrap();
            assert(branches_of(left)[n - 1] == left[n - 1]@);
            assert(child@ == started[n - 1]);
            self.pending.push(child);
            assert(branches_of(self.pending@) == queue.push(child@));
            assert(started.skip(n - 1).reverse() == started.skip(n).reverse().push(started[n - 1]));
            assert(branches_of(children@) == started.take(n - 1));
        }
        assert(started.skip(0) == started);
        self.running = self.running - 1;
        true
    }

    /// Runs the branch that waits on top: probes its level, collects its
    /// hits and queues the branches it starts. Says whether a branch ran.
    /// What the scanner promises to collect stays as it was.
    pub fn advance<P: ProcessInterface>(&mut self, process: &P) -> (ran: bool)
        requires
            old(self).well_formed(),
            old(self).handed_out() == 0,
        ensures
            final(self).well_formed(),
            ran == (old(self).waiting().len() > 0),
            final(self).promised(process) == old(self).promised(process),
            final(self).handed_out() == 0,
            final(self).is_active() == old(self).is_active(),
            ran ==> {
                let branch = old(self).waiting().last();
                &&& final(self).collected() == old(self).collected() + level_hits(process, branch)
                &&& final(self).waiting() == old(self).waiting().drop_last() + level_children(
                    process,
                    branch,
                ).reverse()
            },
            !ran ==> final(self).collected() == old(self).collected() && final(self).waiting()
                == old(self).waiting(),
    {
        let ghost stack = self.waiting();
        let ghost collected = self.collected();
        match self.checkout() {
            None => false,
            Some(options) => {
                let outcome = scan_level(process, &options);
                proof {
                    let branch = options@;
                    let started = level_children(process, branch);
                    lemma_children_shape(process, branch, 0);
                    assert forall|i: int| 0 <= i < outcome.children@.len() implies (
                    #[trigger] outcome.children@[i]).well_formed() by {
                        assert(branches_of(outcome.children@)[i] == outcome.children@[i]@);
                        assert(started[i].alignment == branch.alignment);
                    }
                    let rest = stack.drop_last();
                    if branch.depth == 0 {
                        assert(rest + started.reverse() == rest);
                        assert(scan_results(process, branch) == level_hits(process, branch));
                    } else {
                        lemma_scan_stack_pushed(
                            process,
                            rest,
                            started,
                            (branch.depth - 1) as nat,
                        );
                    }
                    let hits = level_hits(process, branch);
                    let below = scan_stack(process, rest + started.reverse());
                    assert(hits + below == scan_results(process, branch) + scan_stack(
                        process,
                        rest,
                    ));
                    assert((collected + hits) + below == collected + (hits + below));
                }
                self.complete(outcome);
                true
            },
        }
    }

    /// Runs the waiting branches until none is left. The scanner has then
    /// collected what it promised.
    pub fn run<P: ProcessInterface>(&mut self, process: &P)
        requires
            old(self).well_formed(),
            old(self).handed_out() == 0,
        ensures
            final(self).well_formed(),
            final(self).waiting().len() == 0,
            final(self).handed_out() == 0,
            final(self).collected() == old(self).promised(process),
            final(self).is_active() == old(self).is_active(),
    {
        let ghost promised = self.promised(process);
        while self.pending.len() > 0
            invariant
                self.running == 0,
                self.active == old(self).active,
                self.promised(process) == promised,
                forall|i: int|
                    0 <= i < self.pending@.len() ==> (#[trigger] self.pending@[i]).well_formed(),
                self.active || self.pending@.len() == 0,
            decreases self.pending@.len(),
        {
            let ghost stack = branches_of(self.pending@);
            let ghost collected = hits_of(self.results@);
            let ghost queue = self.pending@;
            let options = self.pending.pop().unwrap();
            assert(stack.last() == options@);
            assert(branches_of(self.pending@) == stack.drop_last());
            recursive_first_search(process, &mut self.results, &options);
            assert((collected + scan_results(process, options@)) + scan_stack(
                process,
                stack.drop_last(),
            ) == collected + (scan_results(process, options@) + scan_stack(
                process,
                stack.drop_last(),
            )));
        }
        assert(scan_stack(process, branches_of(self.pending@)) == Seq::<Hit>::empty());
        assert(self.promised(process) == hits_of(self.results@));
    }

    /// Asks for the results. An active scanner with nothing in flight hands
    /// them over, sorted by depth, and is idle from then on; one with
    /// branches in flight is in progress and stays as it is.
    pub fn try_take(&mut self) -> (report: ScannerReport)
        requires
            old(self).well_formed(),
        ensures
            final(self).well_formed(),
            match report {
                ScannerReport::Finished(_, results) => {
                    &&& old(self).is_active()
                    &&& old(self).in_flight() == 0
                    &&& hits_of(results@) == shallow_first(old(self).collected())
                    &&& !final(self).is_active()
                    &&& final(self).collected().len() == 0
                    &&& final(self).in_flight() == 0
                },
                ScannerReport::InProgress => {
                    &&& old(self).is_active()
                    &&& old(self).in_flight() > 0
                    &&& *final(self) == *old(self)
                },
                ScannerReport::Idle => !old(self).is_active() && *final(self) == *old(self),
            },
    {
        if self.active {
            if self.pending.len() == 0 && self.running == 0 {
                let elapsed = time_since(&self.start);
                let mut found: Vec<SearchResult> = Vec::new();
                std::mem::swap(&mut self.results, &mut found);
                self.active = false;
                ScannerReport::Finished(elapsed, sort_by_depth(found))
            } else {
                ScannerReport::InProgress
            }
        } else {
            ScannerReport::Idle
        }
    }
}

} // verus!
