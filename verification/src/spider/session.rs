//! A spider session: one kind of value, a first search, and then next
//! searches on what it found until the results are cleared.

use crate::field::FieldKind;
use crate::process::ProcessInterface;
use crate::spider::report::{lemma_shallow_first_sorts, shallow_first, sort_by_depth};
use crate::spider::laws::{all_of_kind, lemma_refined_keeps_kind, lemma_scan_shape};
use crate::spider::scanner::{recursive_first_search, scan_results};
use crate::spider::{hits_of, next_search, refined, FilterMode, Hit, SearchOptions, SearchResult};
use crate::value::Value;
use vstd::prelude::*;

verus! {

/// Where a session stands.
#[derive(Debug, Clone, Copy, PartialEq, Eq, Structural)]
pub enum SessionState {
    /// There are no results: a first search can be made.
    Empty,
    /// There are results: they can be searched again, or cleared.
    Populated,
}

/// Why a session did not do what it was asked.
#[derive(Debug, Clone, Copy, PartialEq, Eq, Structural)]
pub enum SessionError {
    /// A first search was asked for while there are results.
    NotEmpty,
    /// A next search was asked for while there are no results.
    NotPopulated,
    /// A value is not of the kind of the session.
    KindMismatch,
    /// The kind is none that can be searched for.
    NotNumeric,
    /// The alignment is zero.
    NoAlignment,
}

/// A session. All its results hold values of its kind, so that a comparison
/// among them, or with a wanted value that the session took, never holds
/// values of two kinds against each other.
pub struct SpiderSession {
    kind: FieldKind,
    results: Vec<SearchResult>,
}

impl SpiderSession {
    /// The kind of the values that the session searches for.
    pub closed spec fn wanted_kind(&self) -> FieldKind {
        self.kind
    }

    /// The results of the session.
    pub closed spec fn hits(&self) -> Seq<Hit> {
        hits_of(self.results@)
    }

    /// The session is in order: its kind is numeric and all its results hold
    /// values of that kind.
    pub open spec fn well_formed(&self) -> bool {
        &&& self.wanted_kind().is_numeric()
        &&& all_of_kind(self.hits(), self.wanted_kind())
    }

    /// Where the session stands.
    pub open spec fn spec_state(&self) -> SessionState {
        if self.hits().len() == 0 {
            SessionState::Empty
        } else {
            SessionState::Populated
        }
    }

    /// An empty session for 32-bit signed integers.
    pub fn new() -> (session: SpiderSession)
        ensures
            session.well_formed(),
            session.wanted_kind() == FieldKind::I32,
            session.hits() == Seq::<Hit>::empty(),
    {
        let session = SpiderSession { kind: FieldKind::I32, results: Vec::new() };
        assert(session.hits() =~= Seq::<Hit>::empty());
        session
    }

    pub fn kind(&self) -> (kind: FieldKind)
        ensures
            kind == self.wanted_kind(),
    {
        self.kind
    }

    pub fn state(&self) -> (state: SessionState)
        ensures
            state == self.spec_state(),
    {
        if self.results.len() == 0 {
            SessionState::Empty
        } else {
            SessionState::Populated
        }
    }

    pub fn results(&self) -> (results: &Vec<SearchResult>)
        ensures
            hits_of(results@) == self.hits(),
    {
        &self.results
    }

    /// Chooses the kind to search for. The kind can be changed while the
    /// session is empty, and to a numeric kind only.
    pub fn set_kind(&mut self, kind: FieldKind) -> (done: Result<(), SessionError>)
        requires
            old(self).well_formed(),
        ensures
            final(self).well_formed(),
            final(self).hits() == old(self).hits(),
            match done {
                Ok(_) => old(self).spec_state() == SessionState::Empty && kind.is_numeric()
                    && final(self).wanted_kind() == kind,
                Err(e) => final(self).wanted_kind() == old(self).wanted_kind() && e == (
                if old(self).spec_state() != SessionState::Empty {
                    SessionError::NotEmpty
                } else {
                    SessionError::NotNumeric
                }) && !(old(self).spec_state() == SessionState::Empty && kind.is_numeric()),
            },
    {
        if self.results.len() != 0 {
            return Err(SessionError::NotEmpty);
        }
        if !kind.numeric() {
            return Err(SessionError::NotNumeric);
        }
        self.kind = kind;
        Ok(())
    }

    /// The fault for which a first search on `options` is turned down, if
    /// there is one: the session holds results, the wanted value is not of
    /// its kind, or the alignment is zero.
    pub open spec fn first_search_fault(&self, options: SearchOptions) -> Option<SessionError> {
        if self.spec_state() != SessionState::Empty {
            Some(SessionError::NotEmpty)
        } else if options.value.spec_kind() != self.wanted_kind() {
            Some(SessionError::KindMismatch)
        } else if options.alignment == 0 {
            Some(SessionError::NoAlignment)
        } else {
            None
        }
    }

    /// The first search of an empty session: everything that the search on
    /// `options` finds becomes the results, those with the fewest hops
    /// first.
    pub fn first_search<P: ProcessInterface>(&mut self, process: &P, options: &SearchOptions) -> (done:
        Result<(), SessionError>)
        requires
            old(self).well_formed(),
        ensures
            final(self).well_formed(),
            final(self).wanted_kind() == old(self).wanted_kind(),
            match done {
                Ok(_) => old(self).first_search_fault(*options) is None && final(self).hits()
                    == shallow_first(scan_results(process, options@)),
                Err(e) => old(self).first_search_fault(*options) == Some(e) && final(self).hits()
                    == old(self).hits(),
            },
    {
        if self.results.len() != 0 {
            return Err(SessionError::NotEmpty);
        }
        if options.value.kind() != self.kind {
            return Err(SessionError::KindMismatch);
        }
        if options.alignment == 0 {
            return Err(SessionError::NoAlignment);
        }
        let mut found: Vec<SearchResult> = Vec::new();
        recursive_first_search(process, &mut found, options);
        let ghost raw = scan_results(process, options@);
        assert(hits_of(found@) == raw) by {
            assert(Seq::<Hit>::empty() + raw == raw);
            assert(hits_of(Seq::<SearchResult>::empty()) == Seq::<Hit>::empty());
        }
        self.results = sort_by_depth(found);
        proof {
            lemma_scan_shape(process, options@, options.depth as nat);
            lemma_sorted_keeps_kind(raw, self.kind);
        }
        Ok(())
    }

    /// Takes results that a search outside the session has found, as the
    /// first search of an empty session, those with the fewest hops first.
    /// They are turned down if one of them holds a value of another kind.
    pub fn adopt(&mut self, found: Vec<SearchResult>) -> (done: Result<(), SessionError>)
        requires
            old(self).well_formed(),
        ensures
            final(self).well_formed(),
            final(self).wanted_kind() == old(self).wanted_kind(),
            match done {
                Ok(_) => {
                    &&& old(self).spec_state() == SessionState::Empty
                    &&& all_of_kind(hits_of(found@), old(self).wanted_kind())
                    &&& final(self).hits() == shallow_first(hits_of(found@))
                },
                Err(e) => {
                    &&& final(self).hits() == old(self).hits()
                    &&& e == if old(self).spec_state() != SessionState::Empty {
                        SessionError::NotEmpty
                    } else {
                        SessionError::KindMismatch
                    }
                    &&& old(self).spec_state() != SessionState::Empty || !all_of_kind(
                        hits_of(found@),
                        old(self).wanted_kind(),
                    )
                },
            },
    {
        if self.results.len() != 0 {
            return Err(SessionError::NotEmpty);
        }
        let mut i: usize = 0;
        while i < found.len()
            invariant
                i <= found@.len(),
                *self == *old(self),
                old(self).well_formed(),
                self.results@.len() == 0,
                forall|k: int|
                    0 <= k < i ==> (#[trigger] hits_of(found@)[k]).value.spec_kind() == self.kind,
            decreases found@.len() - i,
        {
            if found[i].last_value.kind() != self.kind {
                assert(hits_of(found@)[i as int].value == found@[i as int].last_value);
                return Err(SessionError::KindMismatch);
            }
            assert(hits_of(found@)[i as int].value == found@[i as int].last_value);
            i += 1;
        }
        proof {
            lemma_sorted_keeps_kind(hits_of(found@), self.kind);
        }
        self.results = sort_by_depth(found);
        Ok(())
    }

    /// A next search: every result is checked against the memory as it is
    /// now, and those that the filter keeps stay, each with the value read
    /// now. The wanted value must be of the kind of the session.
    pub fn next_search<P: ProcessInterface>(
        &mut self,
        process: &P,
        address: usize,
        filter: FilterMode,
        value: Value,
    ) -> (done: Result<(), SessionError>)
        requires
            old(self).well_formed(),
        ensures
            final(self).well_formed(),
            final(self).wanted_kind() == old(self).wanted_kind(),
            match done {
                Ok(_) => {
                    &&& old(self).spec_state() == SessionState::Populated
                    &&& value.spec_kind() == old(self).wanted_kind()
                    &&& final(self).hits() == refined(
                        process,
                        address,
                        filter,
                        value,
                        old(self).hits(),
                    )
                },
                Err(e) => {
                    &&& final(self).hits() == old(self).hits()
                    &&& e == if old(self).spec_state() != SessionState::Populated {
                        SessionError::NotPopulated
                    } else {
                        SessionError::KindMismatch
                    }
                    &&& old(self).spec_state() != SessionState::Populated || value.spec_kind()
                        != old(self).wanted_kind()
                },
            },
    {
        if self.results.len() == 0 {
            return Err(SessionError::NotPopulated);
        }
        if value.kind() != self.kind {
            return Err(SessionError::KindMismatch);
        }
        proof {
            lemma_refined_keeps_kind(process, address, filter, value, self.hits(), self.kind);
        }
        next_search(&mut self.results, process, address, filter, value);
        Ok(())
    }

    /// Drops the results of a populated session: the session is empty
    /// again.
    pub fn clear(&mut self) -> (done: Result<(), SessionError>)
        requires
            old(self).well_formed(),
        ensures
            final(self).well_formed(),
            final(self).wanted_kind() == old(self).wanted_kind(),
            final(self).spec_state() == SessionState::Empty,
            match done {
                Ok(_) => old(self).spec_state() == SessionState::Populated,
                Err(e) => old(self).spec_state() == SessionState::Empty && e
                    == SessionError::NotPopulated,
            },
    {
        if self.results.len() == 0 {
            return Err(SessionError::NotPopulated);
        }
        self.results = Vec::new();
        assert(self.hits() =~= Seq::<Hit>::empty());
        Ok(())
    }
}

/// Sorting by depth keeps the kind of the values.
proof fn lemma_sorted_keeps_kind(hits: Seq<Hit>, kind: FieldKind)
    requires
        all_of_kind(hits, kind),
    ensures
        all_of_kind(shallow_first(hits), kind),
{
    broadcast use vstd::seq_lib::to_multiset_contains;

    lemma_shallow_first_sorts(hits);
    let sorted = shallow_first(hits);
    assert forall|i: int| 0 <= i < sorted.len() implies (#[trigger] sorted[i]).value.spec_kind()
        == kind by {
        assert(sorted.contains(sorted[i]));
        assert(sorted.to_multiset().count(sorted[i]) > 0);
        assert(hits.contains(sorted[i]));
        let k = choose|k: int| 0 <= k < hits.len() && hits[k] == sorted[i];
        assert(hits[k].value.spec_kind() == kind);
    }
}

} // verus!
