use crate::field::{next_id, FieldId, FieldKind, IdSource, NamedState};
use vstd::prelude::*;

verus! {

/// A field of `N` bytes that is read as a floating-point number: four bytes
/// in single precision, eight in double.
pub struct FloatField<const N: usize> {
    id: FieldId,
    state: NamedState,
}

impl<const N: usize> FloatField<N> {
    pub closed spec fn spec_id(&self) -> FieldId {
        self.id
    }

    pub closed spec fn spec_name(&self) -> Seq<char> {
        self.state.name@
    }

    /// A field called `name` under the next id of the source.
    pub fn new(name: String, ids: &mut IdSource) -> (field: FloatField<N>)
        ensures
            field.spec_id() == old(ids).upcoming(),
            field.spec_name() == name@,
            final(ids).upcoming() == old(ids).upcoming().wrapping_add(1),
    {
        FloatField { id: next_id(ids), state: NamedState::new(name) }
    }

    pub fn id(&self) -> (id: FieldId)
        ensures
            id == self.spec_id(),
    {
        self.id
    }

    pub fn name(&self) -> (name: Option<String>)
        ensures
            name matches Some(text) && text@ == self.spec_name(),
    {
        Some(self.state.name.clone())
    }

    pub fn size(&self) -> (size: usize)
        ensures
            size == N,
    {
        N
    }

    /// The kind of this field: there is one for four bytes and one for
    /// eight.
    pub fn kind(&self) -> (kind: Option<FieldKind>)
        ensures
            kind == if N == 4 {
                Some(FieldKind::F32)
            } else if N == 8 {
                Some(FieldKind::F64)
            } else {
                None
            },
    {
        if N == 4 {
            Some(FieldKind::F32)
        } else if N == 8 {
            Some(FieldKind::F64)
        } else {
            None
        }
    }
}

} // verus!
