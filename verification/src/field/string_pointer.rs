use crate::field::{next_id, FieldId, FieldKind, IdSource, NamedState};
use vstd::prelude::*;

verus! {

/// A field of eight bytes that is read as the address of text.
pub struct StringPointerField {
    id: FieldId,
    state: NamedState,
}

/// The text of at most 64 bytes is shown up to its first zero byte.
pub open spec fn text_end(bytes: Seq<u8>, from: int) -> int
    decreases bytes.len() - from,
{
    if from < 0 || from >= bytes.len() || bytes[from] == 0 {
        from
    } else {
        text_end(bytes, from + 1)
    }
}

/// A byte of text as it is shown: a control character is replaced by an
/// underscore.
pub open spec fn shown_byte(byte: u8) -> u8 {
    if byte != 0 && byte < 32 {
        95
    } else {
        byte
    }
}

impl StringPointerField {
    pub closed spec fn spec_id(&self) -> FieldId {
        self.id
    }

    pub closed spec fn spec_name(&self) -> Seq<char> {
        self.state.name@
    }

    /// A field called `name` under the next id of the source.
    pub fn new(name: String, ids: &mut IdSource) -> (field: StringPointerField)
        ensures
            field.spec_id() == old(ids).upcoming(),
            field.spec_name() == name@,
            final(ids).upcoming() == old(ids).upcoming().wrapping_add(1),
    {
        StringPointerField { id: next_id(ids), state: NamedState::new(name) }
    }

    pub fn id(&self) -> (id: FieldId)
        ensures
            id == self.spec_id(),
    {
        self.id
    }

    pub fn name(&self) -> (name: Option<String>)
        ensures
            name matches Some(text) && text@ == self.spec_name(),
    {
        Some(self.state.name.clone())
    }

    pub fn size(&self) -> (size: usize)
        ensures
            size == 8,
    {
        8
    }

    pub fn kind(&self) -> (kind: FieldKind)
        ensures
            kind == FieldKind::StrPtr,
    {
        FieldKind::StrPtr
    }

    /// Makes the bytes of a text fit to be shown: every control character
    /// becomes an underscore. Says where the text ends: at its first zero
    /// byte, or behind its last byte.
    pub fn sanitize(bytes: &mut Vec<u8>) -> (end: usize)
        ensures
            final(bytes)@ == old(bytes)@.map_values(|b: u8| shown_byte(b)),
            end == text_end(old(bytes)@, 0),
            end <= old(bytes)@.len(),
    {
        let ghost raw = bytes@;
        let mut end: usize = bytes.len();
        let mut found: bool = false;
        let mut i: usize = 0;
        while i < bytes.len()
            invariant
                i <= bytes@.len(),
                bytes@.len() == raw.len(),
                forall|k: int| 0 <= k < i ==> bytes@[k] == shown_byte(raw[k]),
                forall|k: int| i <= k < raw.len() ==> bytes@[k] == raw[k],
                found ==> end == text_end(raw, 0) && end <= raw.len(),
                !found ==> end == raw.len() && text_end(raw, 0) == text_end(raw, i as int),
            decreases bytes@.len() - i,
        {
            let byte = bytes[i];
            if byte == 0 && !found {
                end = i;
                found = true;
            }
            if byte != 0 && byte < 32 {
                bytes.set(i, 95);
            }
            i += 1;
        }
        assert(bytes@ =~= raw.map_values(|b: u8| shown_byte(b)));
        end
    }
}

} // verus!
