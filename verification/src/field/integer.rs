use crate::bytes::ByteOrder;
use crate::field::{next_id, FieldId, FieldKind, IdSource, NamedState};
use crate::spider::input::{parse_kind_to_value, parsed};
use crate::value::Value;
use vstd::prelude::*;

verus! {

/// A field of `N` bytes that is read as an integer, with or without sign.
pub struct IntField<const N: usize> {
    id: FieldId,
    signed: bool,
    state: NamedState,
}

/// The integer kind of a width in bytes and a signedness, if there is one.
pub open spec fn integer_kind(width: usize, signed: bool) -> Option<FieldKind> {
    if width == 1 {
        Some(if signed { FieldKind::I8 } else { FieldKind::U8 })
    } else if width == 2 {
        Some(if signed { FieldKind::I16 } else { FieldKind::U16 })
    } else if width == 4 {
        Some(if signed { FieldKind::I32 } else { FieldKind::U32 })
    } else if width == 8 {
        Some(if signed { FieldKind::I64 } else { FieldKind::U64 })
    } else {
        None
    }
}

impl<const N: usize> IntField<N> {
    pub closed spec fn spec_id(&self) -> FieldId {
        self.id
    }

    pub closed spec fn spec_name(&self) -> Seq<char> {
        self.state.name@
    }

    pub closed spec fn is_signed(&self) -> bool {
        self.signed
    }

    /// A signed field called `name` under the next id of the source.
    pub fn signed(name: String, ids: &mut IdSource) -> (field: IntField<N>)
        ensures
            field.spec_id() == old(ids).upcoming(),
            field.spec_name() == name@,
            field.is_signed(),
            final(ids).upcoming() == old(ids).upcoming().wrapping_add(1),
    {
        IntField { id: next_id(ids), signed: true, state: NamedState::new(name) }
    }

    /// An unsigned field called `name` under the next id of the source.
    pub fn unsigned(name: String, ids: &mut IdSource) -> (field: IntField<N>)
        ensures
            field.spec_id() == old(ids).upcoming(),
            field.spec_name() == name@,
            !field.is_signed(),
            final(ids).upcoming() == old(ids).upcoming().wrapping_add(1),
    {
        IntField { id: next_id(ids), signed: false, state: NamedState::new(name) }
    }

    /// Whether the field is read with a sign.
    pub fn has_sign(&self) -> (signed: bool)
        ensures
            signed == self.is_signed(),
    {
        self.signed
    }

    pub fn id(&self) -> (id: FieldId)
        ensures
            id == self.spec_id(),
    {
        self.id
    }

    pub fn name(&self) -> (name: Option<String>)
        ensures
            name matches Some(text) && text@ == self.spec_name(),
    {
        Some(self.state.name.clone())
    }

    pub fn size(&self) -> (size: usize)
        ensures
            size == N,
    {
        N
    }

    /// The kind of this field: there is one for each of the widths one, two,
    /// four and eight.
    pub fn kind(&self) -> (kind: Option<FieldKind>)
        ensures
            kind == integer_kind(N, self.is_signed()),
            kind matches Some(k) ==> k.is_integer() && k.width() == N,
    {
        if N == 1 {
            Some(if self.signed { FieldKind::I8 } else { FieldKind::U8 })
        } else if N == 2 {
            Some(if self.signed { FieldKind::I16 } else { FieldKind::U16 })
        } else if N == 4 {
            Some(if self.signed { FieldKind::I32 } else { FieldKind::U32 })
        } else if N == 8 {
            Some(if self.signed { FieldKind::I64 } else { FieldKind::U64 })
        } else {
            None
        }
    }

    /// The bytes to write into the field for typed text: the text is read
    /// as a decimal number of the kind of the field, and the number laid out
    /// in `order`. Gives nothing where the text is no such number, and for
    /// a field whose width has no kind.
    pub fn write_value(&self, new: &str, order: ByteOrder) -> (bytes: Option<Vec<u8>>)
        ensures
            match bytes {
                Some(written) => {
                    &&& integer_kind(N, self.is_signed()) matches Some(kind)
                    &&& parsed(kind, new@) matches Some(value)
                    &&& written@.len() == N
                    &&& Value::decoded(kind, written@, order) == value
                },
                None => integer_kind(N, self.is_signed()) matches Some(kind) ==> parsed(
                    kind,
                    new@,
                ) is None,
            },
    {
        match self.kind() {
            None => None,
            Some(kind) => match parse_kind_to_value(kind, new) {
                Ok(value) => Some(value.to_bytes(order)),
                Err(_) => None,
            },
        }
    }
}

} // verus!
