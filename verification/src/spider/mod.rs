//! The structure spider: what it is asked, what it finds, and how a find is
//! checked again later.

pub mod input;
pub mod laws;
pub mod report;
pub mod scanner;
pub mod session;

use crate::bytes::{load_u64, ByteOrder};
use crate::process::{read_word, span, ProcessInterface};
use crate::value::{bytes_to_value, Value};
use std::sync::Arc;
use vstd::prelude::*;

verus! {

/// What one level of a search is asked to do.
pub struct SearchOptions {
    /// The offsets of the pointers that led here, outermost first.
    pub offsets: Arc<Vec<usize>>,
    /// How many bytes are probed at each level.
    pub struct_size: usize,
    /// The step between two probed offsets.
    pub alignment: usize,
    /// Where this level's structure begins.
    pub address: usize,
    /// How many more pointer hops may be followed from here.
    pub depth: usize,
    /// The value that is searched for.
    pub value: Value,
}

/// A place where the wanted value was found.
#[derive(Debug)]
pub struct SearchResult {
    /// The offsets of the pointers to follow, outermost first. Shared among
    /// the results of one structure.
    pub parent_offsets: Arc<Vec<usize>>,
    /// The offset of the value in the last structure.
    pub offset: usize,
    /// The value seen there when it was found or last checked.
    pub last_value: Value,
}

/// `SearchOptions` as a plain value.
pub struct Branch {
    pub path: Seq<usize>,
    pub struct_size: usize,
    pub alignment: usize,
    pub address: usize,
    pub depth: usize,
    pub value: Value,
}

/// `SearchResult` as a plain value.
pub struct Hit {
    pub path: Seq<usize>,
    pub offset: usize,
    pub value: Value,
}

impl View for SearchOptions {
    type V = Branch;

    open spec fn view(&self) -> Branch {
        Branch {
            path: self.offsets@,
            struct_size: self.struct_size,
            alignment: self.alignment,
            address: self.address,
            depth: self.depth,
            value: self.value,
        }
    }
}

impl View for SearchResult {
    type V = Hit;

    open spec fn view(&self) -> Hit {
        Hit { path: self.parent_offsets@, offset: self.offset, value: self.last_value }
    }
}

/// The views of a list of results.
pub open spec fn hits_of(results: Seq<SearchResult>) -> Seq<Hit> {
    results.map_values(|r: SearchResult| r@)
}

/// The views of a list of options.
pub open spec fn branches_of(options: Seq<SearchOptions>) -> Seq<Branch> {
    options.map_values(|o: SearchOptions| o@)
}

/// `Arc::clone`: one more handle on the same list of offsets.
#[verifier::external_body]
pub(crate) fn share(path: &Arc<Vec<usize>>) -> (shared: Arc<Vec<usize>>)
    ensures
        shared@ == path@,
{
    Arc::clone(path)
}

/// The address that an eight-byte word holds when read in `order`. Where
/// addresses are narrower than eight bytes the upper bytes are dropped.
pub open spec fn pointer_in(word: Seq<u8>, order: ByteOrder) -> usize {
    order.unsigned(word, 8) as usize
}

/// The address that `word` holds.
pub fn word_to_pointer(word: &[u8; 8], order: ByteOrder) -> (pointer: usize)
    ensures
        pointer == pointer_in(word@, order),
{
    let raw: u64 = load_u64(word, order);
    #[verifier::truncate]
    let pointer: usize = raw as usize;
    pointer
}

} // verus!

verus! {

/// How a found value is held against the past or against a wanted value.
#[derive(Debug, PartialEq, Eq, Clone, Copy, Structural)]
pub enum FilterMode {
    Greater,
    GreaterEq,
    Less,
    LessEq,
    Equal,
    NotEqual,
    Changed,
    Unchanged,
}

impl FilterMode {
    /// The name shown for this mode.
    pub open spec fn label_text(self) -> Seq<char> {
        match self {
            FilterMode::Greater => "Greater"@,
            FilterMode::GreaterEq => "Greater or Equal"@,
            FilterMode::Less => "Less"@,
            FilterMode::LessEq => "Less or Equal"@,
            FilterMode::Equal => "Equal"@,
            FilterMode::NotEqual => "Not equal"@,
            FilterMode::Changed => "Changed"@,
            FilterMode::Unchanged => "Unchanged"@,
        }
    }

    /// The modes that hold the value against a wanted one; the two others
    /// hold it against the value seen last.
    pub open spec fn uses_wanted(self) -> bool {
        !(self is Changed || self is Unchanged)
    }

    /// Whether a result stays: `current` is the value that lies there now,
    /// `last` the one seen before, `wanted` the one the caller compares with.
    pub open spec fn keeps(self, current: Value, last: Value, wanted: Value) -> bool {
        match self {
            FilterMode::Less => current.below(wanted),
            FilterMode::LessEq => current.below(wanted) || current.same_number(wanted),
            FilterMode::Greater => wanted.below(current),
            FilterMode::GreaterEq => wanted.below(current) || current.same_number(wanted),
            FilterMode::Equal => current.same_number(wanted),
            FilterMode::NotEqual => !current.same_number(wanted),
            FilterMode::Changed => !current.same_number(last),
            FilterMode::Unchanged => current.same_number(last),
        }
    }

    /// All modes, in the order in which they are offered.
    pub fn variants() -> (modes: [FilterMode; 8])
        ensures
            modes@ == seq![
                FilterMode::Greater,
                FilterMode::GreaterEq,
                FilterMode::Less,
                FilterMode::LessEq,
                FilterMode::Equal,
                FilterMode::NotEqual,
                FilterMode::Changed,
                FilterMode::Unchanged,
            ],
    {
        let modes = [
            FilterMode::Greater,
            FilterMode::GreaterEq,
            FilterMode::Less,
            FilterMode::LessEq,
            FilterMode::Equal,
            FilterMode::NotEqual,
            FilterMode::Changed,
            FilterMode::Unchanged,
        ];
        assert(modes@ =~= seq![
            FilterMode::Greater,
            FilterMode::GreaterEq,
            FilterMode::Less,
            FilterMode::LessEq,
            FilterMode::Equal,
            FilterMode::NotEqual,
            FilterMode::Changed,
            FilterMode::Unchanged,
        ]);
        modes
    }

    pub fn label(&self) -> (label: &'static str)
        ensures
            label@ == self.label_text(),
    {
        match self {
            FilterMode::Greater => "Greater",
            FilterMode::GreaterEq => "Greater or Equal",
            FilterMode::Less => "Less",
            FilterMode::LessEq => "Less or Equal",
            FilterMode::Equal => "Equal",
            FilterMode::NotEqual => "Not equal",
            FilterMode::Changed => "Changed",
            FilterMode::Unchanged => "Unchanged",
        }
    }

    /// Decides whether a result stays.
    pub fn verdict(&self, current: Value, last: Value, wanted: Value) -> (stays: bool)
        ensures
            stays == self.keeps(current, last, wanted),
    {
        match self {
            FilterMode::Less => current < wanted,
            FilterMode::LessEq => current <= wanted,
            FilterMode::Greater => current > wanted,
            FilterMode::GreaterEq => current >= wanted,
            FilterMode::Equal => current == wanted,
            FilterMode::NotEqual => current != wanted,
            FilterMode::Changed => current != last,
            FilterMode::Unchanged => current == last,
        }
    }
}

/// The address reached from `base` over the first `hops` offsets of `path`:
/// at each hop the eight bytes at the address plus the offset are read as
/// the next address.
pub open spec fn walk<P: ProcessInterface>(process: &P, base: usize, path: Seq<usize>, hops: nat)
    -> usize
    decreases hops,
{
    if hops == 0 {
        base
    } else {
        let before = walk(process, base, path, (hops - 1) as nat);
        pointer_in(span(process, before.wrapping_add(path[hops - 1]), 8), process.order())
    }
}

/// The value that a result stands for in the memory as it is now, with the
/// outermost structure at `base`: the path is walked, the word at the
/// result's offset is read as one more address, and the value lies there.
pub open spec fn live_value<P: ProcessInterface>(process: &P, base: usize, hit: Hit) -> Value {
    let last = walk(process, base, hit.path, hit.path.len());
    let cell = pointer_in(span(process, last.wrapping_add(hit.offset), 8), process.order());
    Value::decoded(hit.value.spec_kind(), span(process, cell, 8), process.order())
}

/// What is left of `hits` after a next search: those that the filter keeps,
/// in their order, each with the value that lies there now.
pub open spec fn refined<P: ProcessInterface>(
    process: &P,
    base: usize,
    filter: FilterMode,
    wanted: Value,
    hits: Seq<Hit>,
) -> Seq<Hit>
    decreases hits.len(),
{
    if hits.len() == 0 {
        Seq::empty()
    } else {
        let first = hits.first();
        let live = live_value(process, base, first);
        let rest = refined(process, base, filter, wanted, hits.drop_first());
        if filter.keeps(live, first.value, wanted) {
            seq![Hit { path: first.path, offset: first.offset, value: live }] + rest
        } else {
            rest
        }
    }
}

impl SearchResult {
    /// Reads the value that this result stands for now.
    pub fn current_value<P: ProcessInterface>(&self, p: &P, address: usize) -> (current: Value)
        ensures
            current == live_value(p, address, self@),
            current.spec_kind() == self.last_value.spec_kind(),
    {
        let order = p.byte_order();
        let mut address: usize = address;
        let ghost base = address;
        let mut i: usize = 0;
        while i < self.parent_offsets.len()
            invariant
                i <= self.parent_offsets@.len(),
                order == p.order(),
                address == walk(p, base, self.parent_offsets@, i as nat),
            decreases self.parent_offsets@.len() - i,
        {
            let word: [u8; 8] = read_word(p, address.wrapping_add(self.parent_offsets[i]));
            address = word_to_pointer(&word, order);
            i += 1;
        }
        let word: [u8; 8] = read_word(p, address.wrapping_add(self.offset));
        address = word_to_pointer(&word, order);
        let word: [u8; 8] = read_word(p, address);
        bytes_to_value(&word, self.last_value.kind(), order)
    }

    /// Reads the value that this result stands for now, keeps it as the last
    /// value seen, and says whether the result stays under `filter`.
    pub fn should_remain<P: ProcessInterface>(
        &mut self,
        p: &P,
        address: usize,
        filter: FilterMode,
        new_value: Value,
    ) -> (stays: bool)
        ensures
            final(self).last_value == live_value(p, address, old(self)@),
            final(self).parent_offsets == old(self).parent_offsets,
            final(self).offset == old(self).offset,
            stays == filter.keeps(
                live_value(p, address, old(self)@),
                old(self).last_value,
                new_value,
            ),
    {
        let current_value = self.current_value(p, address);
        let result = filter.verdict(current_value, self.last_value, new_value);
        self.last_value = current_value;
        result
    }
}

/// Checks every result against the memory as it is now and keeps those that
/// stay under `filter`, in their order, each with the value read now.
pub fn next_search<P: ProcessInterface>(
    results: &mut Vec<SearchResult>,
    p: &P,
    address: usize,
    filter: FilterMode,
    new_value: Value,
)
    ensures
        hits_of(final(results)@) == refined(p, address, filter, new_value, hits_of(old(results)@)),
{
    let ghost all = hits_of(results@);
    let mut kept: Vec<SearchResult> = Vec::new();
    while results.len() > 0
        invariant
            hits_of(results@) == all.take(results@.len() as int),
            results@.len() <= all.len(),
            hits_of(kept@).reverse() == refined(
                p,
                address,
                filter,
                new_value,
                all.skip(results@.len() as int),
            ),
        decreases results@.len(),
    {
        let ghost n = results@.len() as int;
        let ghost kept_before = hits_of(kept@);
        let ghost full = results@;
        let mut result = results.pop().unwrap();
        assert(hits_of(full)[n - 1] == full[n - 1]@);
        assert(result@ == all[n - 1]);
        assert(all.skip(n - 1).first() == all[n - 1]);
        assert(all.skip(n - 1).drop_first() == all.skip(n));
        assert(hits_of(results@) == all.take(n - 1));
        if result.should_remain(p, address, filter, new_value) {
            kept.push(result);
            assert(hits_of(kept@) == kept_before.push(result@));
            assert(kept_before.push(result@).reverse() == seq![result@] + kept_before.reverse());
        }
    }
    assert(all.skip(0) == all);
    assert(hits_of(results@) == Seq::<Hit>::empty());
    while kept.len() > 0
        invariant
            hits_of(results@) + hits_of(kept@).reverse() == refined(
                p,
                address,
                filter,
                new_value,
                all,
            ),
        decreases kept@.len(),
    {
        let ghost done = hits_of(results@);
        let ghost left = hits_of(kept@);
        let result = kept.pop().unwrap();
        results.push(result);
        assert(hits_of(results@) == done.push(result@));
        assert(hits_of(kept@) == left.drop_last());
        assert(left.reverse() == seq![result@] + left.drop_last().reverse());
        assert(done.push(result@) + left.drop_last().reverse() == done + (seq![result@]
            + left.drop_last().reverse()));
    }
    assert(hits_of(kept@).reverse() == Seq::<Hit>::empty());
    assert(hits_of(results@) + Seq::<Hit>::empty() == hits_of(results@));
}

} // verus!
