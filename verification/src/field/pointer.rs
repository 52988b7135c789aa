use crate::field::{next_id, FieldId, FieldKind, FieldResponse, IdSource, NamedState};
use crate::text::{digits_text, push_digits};
use vstd::string::*;
use vstd::prelude::*;

verus! {

/// A field of eight bytes that is read as the address of a class.
pub struct PointerField {
    id: FieldId,
    state: NamedState,
    class_id: Option<usize>,
}

impl PointerField {
    pub closed spec fn spec_id(&self) -> FieldId {
        self.id
    }

    pub closed spec fn spec_name(&self) -> Seq<char> {
        self.state.name@
    }

    /// The id of the class that the pointer leads to, once one is chosen.
    pub closed spec fn target(&self) -> Option<usize> {
        self.class_id
    }

    /// A pointer called `name` under the next id of the source, with no
    /// class chosen.
    pub fn new(name: String, ids: &mut IdSource) -> (field: PointerField)
        ensures
            field.spec_id() == old(ids).upcoming(),
            field.spec_name() == name@,
            field.target() is None,
            final(ids).upcoming() == old(ids).upcoming().wrapping_add(1),
    {
        PointerField { id: next_id(ids), state: NamedState::new(name), class_id: None }
    }

    /// A pointer called `name` under the next id of the source that leads to
    /// the class `class_id`.
    pub fn new_with_class_id(name: String, class_id: usize, ids: &mut IdSource) -> (field:
        PointerField)
        ensures
            field.spec_id() == old(ids).upcoming(),
            field.spec_name() == name@,
            field.target() == Some(class_id),
            final(ids).upcoming() == old(ids).upcoming().wrapping_add(1),
    {
        PointerField { id: next_id(ids), state: NamedState::new(name), class_id: Some(class_id) }
    }

    pub fn id(&self) -> (id: FieldId)
        ensures
            id == self.spec_id(),
    {
        self.id
    }

    pub fn name(&self) -> (name: Option<String>)
        ensures
            name matches Some(text) && text@ == self.spec_name(),
    {
        Some(self.state.name.clone())
    }

    pub fn size(&self) -> (size: usize)
        ensures
            size == 8,
    {
        8
    }

    pub fn kind(&self) -> (kind: FieldKind)
        ensures
            kind == FieldKind::Ptr,
    {
        FieldKind::Ptr
    }

    /// The id of the class that the pointer leads to.
    pub fn class_id(&self) -> (class_id: Option<usize>)
        ensures
            class_id == self.target(),
    {
        self.class_id
    }

    /// Chooses the class that the pointer leads to.
    pub fn set_class_id(&mut self, class_id: usize)
        ensures
            final(self).target() == Some(class_id),
            final(self).spec_id() == old(self).spec_id(),
            final(self).spec_name() == old(self).spec_name(),
    {
        self.class_id = Some(class_id);
    }

    /// The name of the class that is made for a pointer whose class is not
    /// there yet: `C` and the address that the pointer holds, in
    /// hexadecimal.
    pub open spec fn class_name_for(address: usize) -> Seq<char> {
        seq!['C'] + digits_text(address as nat, 16)
    }

    /// What a pointer answers when the class that it leads to is not in the
    /// list: the class is to be made, under the id that the pointer holds
    /// and called after the address. A pointer without a class answers
    /// nothing.
    pub fn missing_class(&self, address: usize) -> (response: Option<FieldResponse>)
        ensures
            match response {
                Some(FieldResponse::NewClass(name, id)) => self.target() == Some(id) && name@
                    == Self::class_name_for(address),
                None => self.target() is None,
            },
    {
        match self.class_id {
            None => None,
            Some(id) => {
                let mut name = String::from_str("C");
                proof {
                    reveal_strlit("C");
                }
                assert(name@ =~= seq!['C']);
                push_digits(&mut name, address as u64, 16);
                Some(FieldResponse::NewClass(name, id))
            },
        }
    }
}

} // verus!
