use crate::field::{
    BoolField, Field, FloatField, HexField, IdSource, IntField, PointerField, StringPointerField,
};
use vstd::prelude::*;
use vstd::string::*;

verus! {

/// How a run of bytes is read: as opaque hex, as a number, as a pointer.
#[derive(Debug, Clone, Copy, PartialEq, Eq, Structural)]
pub enum FieldKind {
    Unk8,
    Unk16,
    Unk32,
    Unk64,
    I8,
    I16,
    I32,
    I64,
    U8,
    U16,
    U32,
    U64,
    F32,
    F64,
    Ptr,
    Bool,
    StrPtr,
}

impl FieldKind {
    /// The numeric kinds: those a value can be searched and compared as.
    pub open spec fn is_numeric(self) -> bool {
        self.is_integer() || self.is_float()
    }

    /// The fixed-width integer kinds.
    pub open spec fn is_integer(self) -> bool {
        self.is_signed() || self.is_unsigned()
    }

    pub open spec fn is_signed(self) -> bool {
        self is I8 || self is I16 || self is I32 || self is I64
    }

    pub open spec fn is_unsigned(self) -> bool {
        self is U8 || self is U16 || self is U32 || self is U64
    }

    pub open spec fn is_float(self) -> bool {
        self is F32 || self is F64
    }

    /// Width in bytes.
    pub open spec fn width(self) -> nat {
        match self {
            FieldKind::Unk8 | FieldKind::I8 | FieldKind::U8 | FieldKind::Bool => 1,
            FieldKind::Unk16 | FieldKind::I16 | FieldKind::U16 => 2,
            FieldKind::Unk32 | FieldKind::I32 | FieldKind::U32 | FieldKind::F32 => 4,
            FieldKind::Unk64
            | FieldKind::I64
            | FieldKind::U64
            | FieldKind::F64
            | FieldKind::Ptr
            | FieldKind::StrPtr => 8,
        }
    }

    /// The name shown for a numeric kind.
    pub open spec fn label_text(self) -> Seq<char> {
        match self {
            FieldKind::I8 => "I8"@,
            FieldKind::I16 => "I16"@,
            FieldKind::I32 => "I32"@,
            FieldKind::I64 => "I64"@,
            FieldKind::U8 => "U8"@,
            FieldKind::U16 => "U16"@,
            FieldKind::U32 => "U32"@,
            FieldKind::U64 => "U64"@,
            FieldKind::F32 => "F32"@,
            FieldKind::F64 => "F64"@,
            _ => Seq::empty(),
        }
    }

    /// Returns size in bytes.
    pub fn size(&self) -> (n: usize)
        ensures
            n == self.width(),
            n == 1 || n == 2 || n == 4 || n == 8,
    {
        match self {
            FieldKind::Unk8 | FieldKind::I8 | FieldKind::U8 | FieldKind::Bool => 1,
            FieldKind::Unk16 | FieldKind::I16 | FieldKind::U16 => 2,
            FieldKind::Unk32 | FieldKind::I32 | FieldKind::U32 | FieldKind::F32 => 4,
            FieldKind::Unk64
            | FieldKind::I64
            | FieldKind::U64
            | FieldKind::F64
            | FieldKind::Ptr
            | FieldKind::StrPtr => 8,
        }
    }

    /// The label of a numeric kind; the other kinds have none.
    pub fn label(&self) -> (label: Option<&'static str>)
        ensures
            match label {
                Some(text) => self.is_numeric() && text@ == self.label_text(),
                None => !self.is_numeric(),
            },
    {
        match self {
            FieldKind::I8 => Some("I8"),
            FieldKind::I16 => Some("I16"),
            FieldKind::I32 => Some("I32"),
            FieldKind::I64 => Some("I64"),
            FieldKind::U8 => Some("U8"),
            FieldKind::U16 => Some("U16"),
            FieldKind::U32 => Some("U32"),
            FieldKind::U64 => Some("U64"),
            FieldKind::F32 => Some("F32"),
            FieldKind::F64 => Some("F64"),
            _ => None,
        }
    }

    /// The numeric kinds, in the order in which they are offered.
    pub fn numeric_kinds() -> (kinds: [FieldKind; 10])
        ensures
            kinds@ == seq![
                FieldKind::I8,
                FieldKind::I16,
                FieldKind::I32,
                FieldKind::I64,
                FieldKind::U8,
                FieldKind::U16,
                FieldKind::U32,
                FieldKind::U64,
                FieldKind::F32,
                FieldKind::F64,
            ],
            forall|i: int| 0 <= i < 10 ==> (#[trigger] kinds@[i]).is_numeric(),
    {
        let kinds = [
            FieldKind::I8,
            FieldKind::I16,
            FieldKind::I32,
            FieldKind::I64,
            FieldKind::U8,
            FieldKind::U16,
            FieldKind::U32,
            FieldKind::U64,
            FieldKind::F32,
            FieldKind::F64,
        ];
        assert(kinds@ =~= seq![
            FieldKind::I8,
            FieldKind::I16,
            FieldKind::I32,
            FieldKind::I64,
            FieldKind::U8,
            FieldKind::U16,
            FieldKind::U32,
            FieldKind::U64,
            FieldKind::F32,
            FieldKind::F64,
        ]);
        kinds
    }

    /// Whether values of this kind can be searched for.
    pub fn numeric(&self) -> (r: bool)
        ensures
            r == self.is_numeric(),
    {
        match self {
            FieldKind::I8
            | FieldKind::I16
            | FieldKind::I32
            | FieldKind::I64
            | FieldKind::U8
            | FieldKind::U16
            | FieldKind::U32
            | FieldKind::U64
            | FieldKind::F32
            | FieldKind::F64 => true,
            _ => false,
        }
    }
}

impl FieldKind {
    /// The name that a field of this kind gets where none is given; the
    /// hex kinds have none.
    pub open spec fn default_name(self) -> Seq<char> {
        match self {
            FieldKind::I8 => "int8"@,
            FieldKind::I16 => "int16"@,
            FieldKind::I32 => "int32"@,
            FieldKind::I64 => "int64"@,
            FieldKind::U8 => "uint8"@,
            FieldKind::U16 => "uint16"@,
            FieldKind::U32 => "uint32"@,
            FieldKind::U64 => "uint64"@,
            FieldKind::F32 => "float"@,
            FieldKind::F64 => "double"@,
            FieldKind::Bool => "boolean"@,
            FieldKind::Ptr => "pointer"@,
            FieldKind::StrPtr => "string"@,
            _ => Seq::empty(),
        }
    }

    /// The hex kinds: bytes whose meaning is not known.
    pub open spec fn is_hex(self) -> bool {
        self is Unk8 || self is Unk16 || self is Unk32 || self is Unk64
    }

    /// The name of a new field: the one given, or the one that the kind
    /// brings.
    fn name_or_default(self, name: Option<String>) -> (text: String)
        ensures
            text@ == match name {
                Some(given) => given@,
                None => self.default_name(),
            },
    {
        match name {
            Some(given) => given,
            None => {
                let text = match self {
                    FieldKind::I8 => "int8",
                    FieldKind::I16 => "int16",
                    FieldKind::I32 => "int32",
                    FieldKind::I64 => "int64",
                    FieldKind::U8 => "uint8",
                    FieldKind::U16 => "uint16",
                    FieldKind::U32 => "uint32",
                    FieldKind::U64 => "uint64",
                    FieldKind::F32 => "float",
                    FieldKind::F64 => "double",
                    FieldKind::Bool => "boolean",
                    FieldKind::Ptr => "pointer",
                    FieldKind::StrPtr => "string",
                    _ => "",
                };
                proof {
                    reveal_strlit("");
                }
                assert(self.is_hex() ==> text@ =~= Seq::<char>::empty());
                String::from_str(text)
            },
        }
    }

    /// A new field of this kind under the next id of the source. It is
    /// called `name`, or by the name that the kind brings; a hex field has
    /// no name. A pointer has no class chosen.
    pub fn into_field(self, name: Option<String>, ids: &mut IdSource) -> (field: Field)
        ensures
            field.spec_kind() == self,
            field.spec_id() == old(ids).upcoming(),
            final(ids).upcoming() == old(ids).upcoming().wrapping_add(1),
            field.spec_name() == if self.is_hex() {
                None
            } else {
                Some(
                    match name {
                        Some(given) => given@,
                        None => self.default_name(),
                    },
                )
            },
            field matches Field::Pointer(pointer) ==> pointer.target() is None,
    {
        match self {
            FieldKind::Unk8 => Field::Hex8(HexField::new(ids)),
            FieldKind::Unk16 => Field::Hex16(HexField::new(ids)),
            FieldKind::Unk32 => Field::Hex32(HexField::new(ids)),
            FieldKind::Unk64 => Field::Hex64(HexField::new(ids)),
            FieldKind::I8 => Field::Int8(IntField::signed(self.name_or_default(name), ids)),
            FieldKind::I16 => Field::Int16(IntField::signed(self.name_or_default(name), ids)),
            FieldKind::I32 => Field::Int32(IntField::signed(self.name_or_default(name), ids)),
            FieldKind::I64 => Field::Int64(IntField::signed(self.name_or_default(name), ids)),
            FieldKind::U8 => Field::Int8(IntField::unsigned(self.name_or_default(name), ids)),
            FieldKind::U16 => Field::Int16(IntField::unsigned(self.name_or_default(name), ids)),
            FieldKind::U32 => Field::Int32(IntField::unsigned(self.name_or_default(name), ids)),
            FieldKind::U64 => Field::Int64(IntField::unsigned(self.name_or_default(name), ids)),
            FieldKind::F32 => Field::Float32(FloatField::new(self.name_or_default(name), ids)),
            FieldKind::F64 => Field::Float64(FloatField::new(self.name_or_default(name), ids)),
            FieldKind::Bool => Field::Bool(BoolField::new(self.name_or_default(name), ids)),
            FieldKind::Ptr => Field::Pointer(PointerField::new(self.name_or_default(name), ids)),
            FieldKind::StrPtr => Field::StringPointer(
                StringPointerField::new(self.name_or_default(name), ids),
            ),
        }
    }
}

} // verus!
