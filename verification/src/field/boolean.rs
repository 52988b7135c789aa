use crate::field::{next_id, FieldId, FieldKind, IdSource, NamedState};
use crate::text::same_text;
use vstd::prelude::*;

verus! {

/// A field of one byte that is read as true or false.
pub struct BoolField {
    id: FieldId,
    state: NamedState,
}

impl BoolField {
    pub closed spec fn spec_id(&self) -> FieldId {
        self.id
    }

    pub closed spec fn spec_name(&self) -> Seq<char> {
        self.state.name@
    }

    /// A field called `name` under the next id of the source.
    pub fn new(name: String, ids: &mut IdSource) -> (field: BoolField)
        ensures
            field.spec_id() == old(ids).upcoming(),
            field.spec_name() == name@,
            final(ids).upcoming() == old(ids).upcoming().wrapping_add(1),
    {
        BoolField { id: next_id(ids), state: NamedState::new(name) }
    }

    pub fn id(&self) -> (id: FieldId)
        ensures
            id == self.spec_id(),
    {
        self.id
    }

    pub fn name(&self) -> (name: Option<String>)
        ensures
            name matches Some(text) && text@ == self.spec_name(),
    {
        Some(self.state.name.clone())
    }

    pub fn size(&self) -> (size: usize)
        ensures
            size == 1,
    {
        1
    }

    pub fn kind(&self) -> (kind: FieldKind)
        ensures
            kind == FieldKind::Bool,
    {
        FieldKind::Bool
    }

    /// What a byte of this field is shown as.
    pub open spec fn shown(byte: u8) -> Seq<char> {
        if byte == 1 {
            "true"@
        } else if byte == 0 {
            "false"@
        } else {
            "invalid"@
        }
    }

    /// Shows the byte of this field: one is true, zero is false, and every
    /// other byte is invalid.
    pub fn display(byte: u8) -> (text: &'static str)
        ensures
            text@ == Self::shown(byte),
    {
        match byte {
            1 => "true",
            0 => "false",
            _ => "invalid",
        }
    }

    /// The byte to write into the field for typed text.
    pub fn write_value(new: &str) -> (byte: Option<u8>)
        ensures
            byte == Self::typed(new@),
    {
        if same_text(new, "1") || same_text(new, "true") || same_text(new, "yes") || same_text(
            new,
            "on",
        ) {
            Some(1)
        } else if same_text(new, "0") || same_text(new, "false") || same_text(new, "no")
            || same_text(new, "off") {
            Some(0)
        } else {
            None
        }
    }

    /// The byte that typed text stands for, if it is one of the words for
    /// true or for false.
    pub open spec fn typed(text: Seq<char>) -> Option<u8> {
        if text == "1"@ || text == "true"@ || text == "yes"@ || text == "on"@ {
            Some(1u8)
        } else if text == "0"@ || text == "false"@ || text == "no"@ || text == "off"@ {
            Some(0u8)
        } else {
            None
        }
    }
}

} // verus!
