use crate::field::FieldKind;
use vstd::prelude::*;

verus! {

/// What the user asked for in the tool bar.
#[derive(Debug, Clone, Copy, PartialEq, Eq, Structural)]
pub enum ToolBarResponse {
    /// Attach to the process with this id.
    ProcessAttach(u32),
    ProcessDetach,
    /// Add this many bytes to the end of the class.
    Add(usize),
    /// Remove this many fields, from the selected one on.
    Remove(usize),
    /// Insert this many bytes before the selected field.
    Insert(usize),
    /// Make the selected field one of this kind.
    ChangeKind(FieldKind),
}

} // verus!
