//! Writing classes out as source code.

use crate::field::FieldKind;
use vstd::prelude::*;

verus! {

/// Takes the classes of a project, field by field, and makes source text of
/// them.
pub trait Generator {
    /// A class begins.
    fn begin_class(&mut self, name: &str);

    /// The class that began last is over.
    fn end_class(&mut self);

    /// The class has a field of this kind here. `metadata` names the class
    /// that a pointer leads to.
    fn add_field(&mut self, name: &str, kind: FieldKind, metadata: Option<&str>);

    /// The next field lies `offset` bytes further on.
    fn add_offset(&mut self, offset: usize);

    /// Hands the text over.
    fn finilize(&mut self) -> String;
}

/// The languages that classes can be written out in.
#[derive(Debug, Clone, Copy, PartialEq, Eq, Structural)]
pub enum AvailableGenerator {
    Rust,
    Cpp,
}

impl AvailableGenerator {
    pub open spec fn label_text(self) -> Seq<char> {
        match self {
            AvailableGenerator::Rust => "Rust"@,
            AvailableGenerator::Cpp => "C++"@,
        }
    }

    /// The name of the language.
    pub fn label(&self) -> (label: &'static str)
        ensures
            label@ == self.label_text(),
    {
        match self {
            AvailableGenerator::Rust => "Rust",
            AvailableGenerator::Cpp => "C++",
        }
    }
}

impl Default for AvailableGenerator {
    fn default() -> (generator: AvailableGenerator)
        ensures
            generator == AvailableGenerator::Rust,
    {
        AvailableGenerator::Rust
    }
}

} // verus!
