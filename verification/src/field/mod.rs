//! The fields that a class lays over memory.

pub mod boolean;
pub mod float;
pub mod hex;
pub mod integer;
pub mod kind;
pub mod pointer;
pub mod string_pointer;
pub mod utils;

pub use boolean::BoolField;
pub use float::FloatField;
pub use hex::HexField;
pub use integer::IntField;
pub use kind::FieldKind;
pub use pointer::PointerField;
pub use string_pointer::StringPointerField;
pub use utils::allocate_padding;

use vstd::prelude::*;

verus! {

/// The number by which a field is told from all others.
pub type FieldId = u64;

/// What a field asks of the class list.
pub enum FieldResponse {
    /// A class with this name is to be made under this id.
    NewClass(String, usize),
}

/// Hands out field ids: each one once, counting up, and again from zero
/// after the largest.
pub struct IdSource {
    next: FieldId,
}

impl IdSource {
    /// The id that is handed out next.
    pub closed spec fn upcoming(&self) -> FieldId {
        self.next
    }

    /// A source whose first id is zero.
    pub fn new() -> (ids: IdSource)
        ensures
            ids.upcoming() == 0,
    {
        IdSource { next: 0 }
    }
}

/// Takes the next id from the source.
pub fn next_id(ids: &mut IdSource) -> (id: FieldId)
    ensures
        id == old(ids).upcoming(),
        final(ids).upcoming() == old(ids).upcoming().wrapping_add(1),
{
    let id = ids.next;
    ids.next = ids.next.wrapping_add(1);
    id
}

/// The name of a field and the state of its being renamed.
pub struct NamedState {
    /// The name is being edited.
    pub editing: bool,
    /// The editor asks for the keyboard.
    pub request_focus: bool,
    pub name: String,
    /// The name as it was before the edit began.
    pub saved_name: String,
}

impl NamedState {
    /// The state of a field called `name` that is not being renamed.
    pub fn new(name: String) -> (state: NamedState)
        ensures
            state.name@ == name@,
            state.saved_name@.len() == 0,
            !state.editing,
            !state.request_focus,
    {
        NamedState { editing: false, request_focus: false, name, saved_name: String::new() }
    }
}

/// A field of a class: one of the kinds of field there are.
pub enum Field {
    Hex8(HexField<1>),
    Hex16(HexField<2>),
    Hex32(HexField<4>),
    Hex64(HexField<8>),
    Int8(IntField<1>),
    Int16(IntField<2>),
    Int32(IntField<4>),
    Int64(IntField<8>),
    Float32(FloatField<4>),
    Float64(FloatField<8>),
    Bool(BoolField),
    Pointer(PointerField),
    StringPointer(StringPointerField),
}

impl Field {
    /// The id of the field.
    pub open spec fn spec_id(&self) -> FieldId {
        match self {
            Field::Hex8(f) => f.spec_id(),
            Field::Hex16(f) => f.spec_id(),
            Field::Hex32(f) => f.spec_id(),
            Field::Hex64(f) => f.spec_id(),
            Field::Int8(f) => f.spec_id(),
            Field::Int16(f) => f.spec_id(),
            Field::Int32(f) => f.spec_id(),
            Field::Int64(f) => f.spec_id(),
            Field::Float32(f) => f.spec_id(),
            Field::Float64(f) => f.spec_id(),
            Field::Bool(f) => f.spec_id(),
            Field::Pointer(f) => f.spec_id(),
            Field::StringPointer(f) => f.spec_id(),
        }
    }

    /// The kind of the field.
    pub open spec fn spec_kind(&self) -> FieldKind {
        match self {
            Field::Hex8(_) => FieldKind::Unk8,
            Field::Hex16(_) => FieldKind::Unk16,
            Field::Hex32(_) => FieldKind::Unk32,
            Field::Hex64(_) => FieldKind::Unk64,
            Field::Int8(f) => if f.is_signed() {
                FieldKind::I8
            } else {
                FieldKind::U8
            },
            Field::Int16(f) => if f.is_signed() {
                FieldKind::I16
            } else {
                FieldKind::U16
            },
            Field::Int32(f) => if f.is_signed() {
                FieldKind::I32
            } else {
                FieldKind::U32
            },
            Field::Int64(f) => if f.is_signed() {
                FieldKind::I64
            } else {
                FieldKind::U64
            },
            Field::Float32(_) => FieldKind::F32,
            Field::Float64(_) => FieldKind::F64,
            Field::Bool(_) => FieldKind::Bool,
            Field::Pointer(_) => FieldKind::Ptr,
            Field::StringPointer(_) => FieldKind::StrPtr,
        }
    }

    /// The name of the field; a hex field has none.
    pub open spec fn spec_name(&self) -> Option<Seq<char>> {
        match self {
            Field::Hex8(_) | Field::Hex16(_) | Field::Hex32(_) | Field::Hex64(_) => None,
            Field::Int8(f) => Some(f.spec_name()),
            Field::Int16(f) => Some(f.spec_name()),
            Field::Int32(f) => Some(f.spec_name()),
            Field::Int64(f) => Some(f.spec_name()),
            Field::Float32(f) => Some(f.spec_name()),
            Field::Float64(f) => Some(f.spec_name()),
            Field::Bool(f) => Some(f.spec_name()),
            Field::Pointer(f) => Some(f.spec_name()),
            Field::StringPointer(f) => Some(f.spec_name()),
        }
    }

    /// The number of bytes that the field takes.
    pub open spec fn spec_size(&self) -> nat {
        self.spec_kind().width()
    }

    pub fn id(&self) -> (id: FieldId)
        ensures
            id == self.spec_id(),
    {
        match self {
            Field::Hex8(f) => f.id(),
            Field::Hex16(f) => f.id(),
            Field::Hex32(f) => f.id(),
            Field::Hex64(f) => f.id(),
            Field::Int8(f) => f.id(),
            Field::Int16(f) => f.id(),
            Field::Int32(f) => f.id(),
            Field::Int64(f) => f.id(),
            Field::Float32(f) => f.id(),
            Field::Float64(f) => f.id(),
            Field::Bool(f) => f.id(),
            Field::Pointer(f) => f.id(),
            Field::StringPointer(f) => f.id(),
        }
    }

    pub fn name(&self) -> (name: Option<String>)
        ensures
            match name {
                Some(text) => self.spec_name() == Some(text@),
                None => self.spec_name() is None,
            },
    {
        match self {
            Field::Hex8(_) | Field::Hex16(_) | Field::Hex32(_) | Field::Hex64(_) => None,
            Field::Int8(f) => f.name(),
            Field::Int16(f) => f.name(),
            Field::Int32(f) => f.name(),
            Field::Int64(f) => f.name(),
            Field::Float32(f) => f.name(),
            Field::Float64(f) => f.name(),
            Field::Bool(f) => f.name(),
            Field::Pointer(f) => f.name(),
            Field::StringPointer(f) => f.name(),
        }
    }

    pub fn kind(&self) -> (kind: FieldKind)
        ensures
            kind == self.spec_kind(),
    {
        match self {
            Field::Hex8(_) => FieldKind::Unk8,
            Field::Hex16(_) => FieldKind::Unk16,
            Field::Hex32(_) => FieldKind::Unk32,
            Field::Hex64(_) => FieldKind::Unk64,
            Field::Int8(f) => if f.has_sign() {
                FieldKind::I8
            } else {
                FieldKind::U8
            },
            Field::Int16(f) => if f.has_sign() {
                FieldKind::I16
            } else {
                FieldKind::U16
            },
            Field::Int32(f) => if f.has_sign() {
                FieldKind::I32
            } else {
                FieldKind::U32
            },
            Field::Int64(f) => if f.has_sign() {
                FieldKind::I64
            } else {
                FieldKind::U64
            },
            Field::Float32(_) => FieldKind::F32,
            Field::Float64(_) => FieldKind::F64,
            Field::Bool(_) => FieldKind::Bool,
            Field::Pointer(_) => FieldKind::Ptr,
            Field::StringPointer(_) => FieldKind::StrPtr,
        }
    }

    pub fn size(&self) -> (size: usize)
        ensures
            size == self.spec_size(),
            1 <= size <= 8,
    {
        self.kind().size()
    }
}

} // verus!
