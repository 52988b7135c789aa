//! Where an inspection stands, and which field is selected.

use crate::field::FieldId;
use vstd::prelude::*;

verus! {

/// The number by which a class is told from all others.
pub type ClassId = usize;

/// The field that is selected: its id, the class that holds it, and the
/// address it was drawn at.
#[derive(Debug, Clone, Copy)]
pub struct Selection {
    pub address: usize,
    pub container_id: ClassId,
    pub field_id: FieldId,
}

/// Where the inspection of a class stands while its fields are gone through.
pub struct InspectionContext {
    pub selection: Option<Selection>,
    /// The class whose fields are gone through.
    pub current_container: usize,
    /// Where the class lies in memory.
    pub address: usize,
    /// How far into the class the field at hand begins.
    pub offset: usize,
}

impl InspectionContext {
    /// The field at hand, under `field_id`, is the selected one: the
    /// selection names this id and the address where the field lies.
    pub open spec fn selects(self, field_id: FieldId) -> bool {
        match self.selection {
            Some(s) => s.address == self.address + self.offset && s.field_id == field_id,
            None => false,
        }
    }

    /// Whether the field at hand is the selected one.
    pub fn is_selected(&self, field_id: FieldId) -> (selected: bool)
        requires
            self.address + self.offset <= usize::MAX,
        ensures
            selected == self.selects(field_id),
    {
        match &self.selection {
            Some(s) => s.address == self.address + self.offset && s.field_id == field_id,
            None => false,
        }
    }

    /// A click on the field at hand: selects it, or takes the selection away
    /// if it was the selected one.
    pub fn select(&mut self, field_id: FieldId)
        requires
            old(self).address + old(self).offset <= usize::MAX,
        ensures
            final(self).selection == if old(self).selects(field_id) {
                None
            } else {
                Some(
                    Selection {
                        address: (old(self).address + old(self).offset) as usize,
                        container_id: old(self).current_container,
                        field_id,
                    },
                )
            },
            final(self).current_container == old(self).current_container,
            final(self).address == old(self).address,
            final(self).offset == old(self).offset,
    {
        if self.is_selected(field_id) {
            self.selection = None;
        } else {
            self.selection = Some(
                Selection {
                    container_id: self.current_container,
                    address: self.address + self.offset,
                    field_id,
                },
            );
        }
    }
}

} // verus!
