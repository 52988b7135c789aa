//! The classes of a project as they are stored: names, kinds and offsets.

use crate::class::{class_position, Class, ClassList};
use crate::field::utils::{padding_sizes, sizes_of};
use crate::field::{allocate_padding, Field, FieldKind, IdSource, PointerField};
use crate::generator::Generator;
use vstd::prelude::*;
use vstd::string::*;

verus! {

/// A field as it is stored.
#[derive(Debug, Clone)]
pub struct DataField {
    pub name: String,
    /// How far into its class the field begins.
    pub offset: usize,
    pub kind: FieldKind,
    /// For a pointer, the name of the class that it leads to.
    pub metadata: Option<String>,
}

/// A class as it is stored.
#[derive(Debug, Clone)]
pub struct DataClass {
    pub name: String,
    pub fields: Vec<DataField>,
}

/// The classes of a project as they are stored.
#[derive(Debug, Clone)]
pub struct ProjectData {
    classes: Vec<DataClass>,
}

/// A field as a plain value.
pub struct FieldEntry {
    pub name: Seq<char>,
    pub offset: usize,
    pub kind: FieldKind,
    pub metadata: Option<Seq<char>>,
}

/// A class as a plain value.
pub struct ClassEntry {
    pub name: Seq<char>,
    pub fields: Seq<FieldEntry>,
}

impl View for DataField {
    type V = FieldEntry;

    open spec fn view(&self) -> FieldEntry {
        FieldEntry {
            name: self.name@,
            offset: self.offset,
            kind: self.kind,
            metadata: match self.metadata {
                Some(text) => Some(text@),
                None => None,
            },
        }
    }
}

impl View for DataClass {
    type V = ClassEntry;

    open spec fn view(&self) -> ClassEntry {
        ClassEntry { name: self.name@, fields: self.fields@.map_values(|f: DataField| f@) }
    }
}

impl View for ProjectData {
    type V = Seq<ClassEntry>;

    closed spec fn view(&self) -> Seq<ClassEntry> {
        self.classes@.map_values(|c: DataClass| c@)
    }
}

/// Gathers the classes of a project while their fields are gone through,
/// and keeps count of the offset in the class at hand.
pub struct ProjectDataGenerator {
    classes: Vec<DataClass>,
    offset: usize,
    last_offset: usize,
}

impl ProjectDataGenerator {
    /// The classes gathered so far; the last one is the class at hand.
    pub closed spec fn gathered(&self) -> Seq<ClassEntry> {
        self.classes@.map_values(|c: DataClass| c@)
    }

    /// The offset at which the next field of the class at hand begins.
    pub closed spec fn position(&self) -> usize {
        self.offset
    }

    /// The offset behind the last field of the class at hand.
    pub closed spec fn end_of_fields(&self) -> usize {
        self.last_offset
    }

    /// A generator that has gathered nothing.
    pub fn new() -> (generator: ProjectDataGenerator)
        ensures
            generator.gathered() == Seq::<ClassEntry>::empty(),
            generator.position() == 0,
            generator.end_of_fields() == 0,
    {
        let generator = ProjectDataGenerator { classes: Vec::new(), offset: 0, last_offset: 0 };
        assert(generator.gathered() =~= Seq::<ClassEntry>::empty());
        generator
    }

    /// Hands over what was gathered.
    pub fn into_project(self) -> (project: ProjectData)
        ensures
            project@ == self.gathered(),
    {
        ProjectData { classes: self.classes }
    }
}

/// `classes` with `field` added to the last class.
pub open spec fn with_field(classes: Seq<ClassEntry>, field: FieldEntry) -> Seq<ClassEntry> {
    classes.update(
        classes.len() - 1,
        ClassEntry { name: classes.last().name, fields: classes.last().fields.push(field) },
    )
}

impl Generator for ProjectDataGenerator {
    /// A class without fields is the class at hand.
    fn begin_class(&mut self, name: &str)
        ensures
            final(self).gathered() == old(self).gathered().push(
                ClassEntry { name: name@, fields: Seq::empty() },
            ),
            final(self).position() == old(self).position(),
            final(self).end_of_fields() == old(self).end_of_fields(),
    {
        self.classes.push(DataClass { name: name.to_owned(), fields: Vec::new() });
        assert(self.classes@.last()@.fields =~= Seq::<FieldEntry>::empty());
        assert(self.gathered() =~= old(self).gathered().push(
            ClassEntry { name: name@, fields: Seq::empty() },
        ));
    }

    /// The count of the offset begins again.
    fn end_class(&mut self)
        ensures
            final(self).gathered() == old(self).gathered(),
            final(self).position() == 0,
            final(self).end_of_fields() == 0,
    {
        self.offset = 0;
        self.last_offset = 0;
    }

    /// The class at hand gets the field at the offset that was counted, and
    /// the count goes on by the size of the kind. Without a class at hand
    /// nothing is stored. The count wraps round at the largest offset.
    fn add_field(&mut self, name: &str, kind: FieldKind, metadata: Option<&str>)
        ensures
            final(self).gathered() == if old(self).gathered().len() == 0 {
                old(self).gathered()
            } else {
                with_field(
                    old(self).gathered(),
                    FieldEntry {
                        name: name@,
                        offset: old(self).position(),
                        kind,
                        metadata: match metadata {
                            Some(text) => Some(text@),
                            None => None,
                        },
                    },
                )
            },
            final(self).position() == old(self).position().wrapping_add(kind.width() as usize),
            final(self).end_of_fields() == final(self).position(),
    {
        let size = kind.size();
        let count = self.classes.len();
        if count > 0 {
            let ghost before = self.classes@[count - 1];
            let field = DataField {
                metadata: match metadata {
                    Some(text) => Some(text.to_owned()),
                    None => None,
                },
                name: name.to_owned(),
                offset: self.offset,
                kind,
            };
            self.classes[count - 1].fields.push(field);
            assert(self.classes@[count - 1].name == before.name);
            assert(self.classes@[count - 1]@.fields =~= before@.fields.push(field@));
            assert(self.gathered() =~= with_field(old(self).gathered(), field@));
        }
        self.offset = self.offset.wrapping_add(size);
        self.last_offset = self.offset;
    }

    /// The count goes on by `offset` bytes, and wraps round at the largest
    /// offset.
    fn add_offset(&mut self, offset: usize)
        ensures
            final(self).gathered() == old(self).gathered(),
            final(self).position() == old(self).position().wrapping_add(offset),
            final(self).end_of_fields() == old(self).end_of_fields(),
    {
        self.offset = self.offset.wrapping_add(offset);
    }

    /// This generator makes no text: it hands out the empty text.
    fn finilize(&mut self) -> (text: String)
        ensures
            text@.len() == 0,
            final(self).gathered() == old(self).gathered(),
    {
        String::new()
    }
}

/// The offset of the field at `index`: what the fields before it take,
/// wrapping round at the largest offset.
pub open spec fn offset_of(fields: Seq<Field>, index: int) -> usize
    decreases index,
{
    if index <= 0 {
        0
    } else {
        offset_of(fields, index - 1).wrapping_add(fields[index - 1].spec_size() as usize)
    }
}

/// The name of the class that a pointer leads to, if it leads to one of
/// `classes`.
pub open spec fn target_name(field: Field, classes: Seq<Class>) -> Option<Seq<char>> {
    match field {
        Field::Pointer(pointer) => match pointer.target() {
            Some(id) => match class_position(classes, id, 0) {
                Some(i) => Some(classes[i].name@),
                None => None,
            },
            None => None,
        },
        _ => None,
    }
}

/// What is stored of the first `count` fields of a class: every field but
/// the hex fields, with its offset.
pub open spec fn stored_fields(fields: Seq<Field>, count: int, classes: Seq<Class>) -> Seq<
    FieldEntry,
>
    decreases count,
{
    if count <= 0 {
        Seq::empty()
    } else {
        let before = stored_fields(fields, count - 1, classes);
        match stored_field(fields[count - 1], offset_of(fields, count - 1), classes) {
            None => before,
            Some(entry) => before.push(entry),
        }
    }
}

/// What is stored of a class.
pub open spec fn stored_class(class: Class, classes: Seq<Class>) -> ClassEntry {
    ClassEntry {
        name: class.name@,
        fields: stored_fields(class.fields@, class.fields@.len() as int, classes),
    }
}

/// What is stored of the first `count` classes.
pub open spec fn stored_classes(classes: Seq<Class>, count: int) -> Seq<ClassEntry>
    decreases count,
{
    if count <= 0 {
        Seq::empty()
    } else {
        stored_classes(classes, count - 1).push(stored_class(classes[count - 1], classes))
    }
}

/// The name of the first class under `id`.
fn name_of_class(classes: &Vec<Class>, id: usize) -> (name: Option<&str>)
    ensures
        match name {
            Some(text) => class_position(classes@, id, 0) matches Some(i) && text@
                == classes@[i].name@,
            None => class_position(classes@, id, 0) is None,
        },
{
    let mut i: usize = 0;
    while i < classes.len()
        invariant
            i <= classes@.len(),
            class_position(classes@, id, 0) == class_position(classes@, id, i as int),
        decreases classes@.len() - i,
    {
        if classes[i].id == id {
            return Some(classes[i].name.as_str());
        }
        i += 1;
    }
    None
}

/// What the fields of a class may look up when they are stored.
pub struct CodegenData<'a> {
    /// All classes of the project.
    pub classes: &'a Vec<Class>,
}

/// What is stored of a field that lies at `offset`; nothing of a hex field.
pub open spec fn stored_field(field: Field, offset: usize, classes: Seq<Class>) -> Option<
    FieldEntry,
> {
    match field.spec_name() {
        None => None,
        Some(name) => Some(
            FieldEntry {
                name,
                offset,
                kind: field.spec_kind(),
                metadata: target_name(field, classes),
            },
        ),
    }
}

impl Field {
    /// Tells the generator of this field: a hex field moves the offset on,
    /// and every other field is stored where the generator stands, with
    /// its name and its kind, a pointer with the name of the class that it
    /// leads to.
    pub fn codegen(&self, generator: &mut ProjectDataGenerator, data: &CodegenData)
        ensures
            final(generator).gathered() == match stored_field(
                *self,
                old(generator).position(),
                data.classes@,
            ) {
                Some(entry) => if old(generator).gathered().len() == 0 {
                    old(generator).gathered()
                } else {
                    with_field(old(generator).gathered(), entry)
                },
                None => old(generator).gathered(),
            },
            final(generator).position() == old(generator).position().wrapping_add(
                self.spec_size() as usize,
            ),
    {
        match self.name() {
            None => {
                generator.add_offset(self.size());
            },
            Some(name) => {
                let target: Option<&str> = match self {
                    Field::Pointer(pointer) => match pointer.class_id() {
                        Some(id) => name_of_class(data.classes, id),
                        None => None,
                    },
                    _ => None,
                };
                generator.add_field(name.as_str(), self.kind(), target);
            },
        }
    }
}

impl ProjectData {
    /// The project that stores these classes.
    pub fn new(classes: Vec<DataClass>) -> (project: ProjectData)
        ensures
            project@ == classes@.map_values(|c: DataClass| c@),
    {
        ProjectData { classes }
    }

    /// The classes that the project stores.
    pub fn classes(&self) -> (classes: &Vec<DataClass>)
        ensures
            classes@.map_values(|c: DataClass| c@) == self@,
    {
        &self.classes
    }

    /// Stores the classes: of each its name and its fields with their
    /// offsets. Hex fields are not stored; they show in the offsets of the
    /// fields behind them. A pointer is stored with the name of the class
    /// that it leads to.
    pub fn store(classes: &Vec<Class>) -> (project: ProjectData)
        ensures
            project@ == stored_classes(classes@, classes@.len() as int),
    {
        let mut datagen = ProjectDataGenerator::new();
        let data = CodegenData { classes };
        let mut c: usize = 0;
        while c < classes.len()
            invariant
                c <= classes@.len(),
                data.classes == classes,
                datagen.gathered() == stored_classes(classes@, c as int),
                datagen.position() == 0,
            decreases classes@.len() - c,
        {
            let class = &classes[c];
            let ghost done = datagen.gathered();
            datagen.begin_class(class.name.as_str());
            let mut f: usize = 0;
            while f < class.fields.len()
                invariant
                    f <= class.fields@.len(),
                    class == classes@[c as int],
                    data.classes == classes,
                    datagen.gathered() == done.push(
                        ClassEntry {
                            name: class.name@,
                            fields: stored_fields(class.fields@, f as int, classes@),
                        },
                    ),
                    datagen.position() == offset_of(class.fields@, f as int),
                decreases class.fields@.len() - f,
            {
                class.fields[f].codegen(&mut datagen, &data);
                f += 1;
            }
            datagen.end_class();
            c += 1;
        }
        datagen.into_project()
    }
}

/// The views of a list of stored fields.
pub open spec fn entries_of(fields: Seq<DataField>) -> Seq<FieldEntry> {
    fields.map_values(|f: DataField| f@)
}

/// The place at `from` or behind it where a field at `offset` goes into a
/// sorted list: before the first field with a larger offset, and so behind
/// all fields with the same.
pub open spec fn place_for(sorted: Seq<FieldEntry>, offset: usize, from: int) -> int
    decreases sorted.len() - from,
{
    if from < 0 || from >= sorted.len() || sorted[from].offset > offset {
        from
    } else {
        place_for(sorted, offset, from + 1)
    }
}

/// The fields sorted by their offset; fields with one offset keep their
/// order.
pub open spec fn by_offset(fields: Seq<FieldEntry>) -> Seq<FieldEntry>
    decreases fields.len(),
{
    if fields.len() == 0 {
        Seq::empty()
    } else {
        let sorted = by_offset(fields.drop_last());
        sorted.insert(place_for(sorted, fields.last().offset, 0), fields.last())
    }
}

/// The place for a field lies in the list or at its end.
pub proof fn lemma_place_for_bounds(sorted: Seq<FieldEntry>, offset: usize, from: int)
    requires
        0 <= from <= sorted.len(),
    ensures
        from <= place_for(sorted, offset, from) <= sorted.len(),
        forall|i: int|
            from <= i < place_for(sorted, offset, from) ==> (#[trigger] sorted[i]).offset <= offset,
        place_for(sorted, offset, from) < sorted.len() ==> sorted[place_for(
            sorted,
            offset,
            from,
        )].offset > offset,
    decreases sorted.len() - from,
{
    if from < sorted.len() && sorted[from].offset <= offset {
        lemma_place_for_bounds(sorted, offset, from + 1);
    }
}

/// Sorting keeps every field, and in what it gives no field has a smaller
/// offset than one before it.
pub proof fn lemma_by_offset_sorts(fields: Seq<FieldEntry>)
    ensures
        by_offset(fields).len() == fields.len(),
        by_offset(fields).to_multiset() == fields.to_multiset(),
        forall|i: int, j: int|
            0 <= i <= j < by_offset(fields).len() ==> (#[trigger] by_offset(fields)[i]).offset <= (
            #[trigger] by_offset(fields)[j]).offset,
    decreases fields.len(),
{
    if fields.len() == 0 {
        assert(by_offset(fields) == fields);
    } else {
        let front = fields.drop_last();
        let last = fields.last();
        let sorted = by_offset(front);
        lemma_by_offset_sorts(front);
        lemma_place_for_bounds(sorted, last.offset, 0);
        let at = place_for(sorted, last.offset, 0);
        let out = sorted.insert(at, last);
        assert(fields == front.push(last));
        vstd::seq_lib::to_multiset_build(front, last);
        vstd::seq_lib::to_multiset_insert(sorted, at, last);
        assert forall|i: int, j: int| 0 <= i <= j < out.len() implies (#[trigger] out[i]).offset <= (
        #[trigger] out[j]).offset by {
            if i < at && j > at {
                assert(out[i] == sorted[i]);
                assert(out[j] == sorted[j - 1]);
                assert(sorted[at].offset <= sorted[j - 1].offset);
            } else if i < at && j < at {
                assert(out[i] == sorted[i] && out[j] == sorted[j]);
            } else if i > at {
                assert(out[i] == sorted[i - 1] && out[j] == sorted[j - 1]);
            } else if i == at && j > at {
                assert(out[j] == sorted[j - 1]);
                assert(sorted[at].offset <= sorted[j - 1].offset);
            } else if j == at && i < at {
                assert(out[i] == sorted[i]);
            }
        }
    }
}

/// A copy of a stored field.
fn copy_field(field: &DataField) -> (copy: DataField)
    ensures
        copy@ == field@,
{
    DataField {
        name: field.name.clone(),
        offset: field.offset,
        kind: field.kind,
        metadata: match &field.metadata {
            Some(text) => Some(text.clone()),
            None => None,
        },
    }
}

/// Sorts stored fields by their offset. Fields with one offset keep their
/// order.
pub fn sort_by_offset(fields: &Vec<DataField>) -> (sorted: Vec<DataField>)
    ensures
        entries_of(sorted@) == by_offset(entries_of(fields@)),
{
    let ghost all = entries_of(fields@);
    let mut sorted: Vec<DataField> = Vec::new();
    let mut i: usize = 0;
    assert(all.take(0) == Seq::<FieldEntry>::empty());
    while i < fields.len()
        invariant
            i <= fields@.len(),
            all == entries_of(fields@),
            entries_of(sorted@) == by_offset(all.take(i as int)),
            sorted@.len() == i,
        decreases fields@.len() - i,
    {
        let field = copy_field(&fields[i]);
        let ghost before = entries_of(sorted@);
        let mut at: usize = 0;
        while at < sorted.len() && sorted[at].offset <= field.offset
            invariant
                at <= sorted@.len(),
                before == entries_of(sorted@),
                place_for(before, field.offset, 0) == place_for(before, field.offset, at as int),
            decreases sorted@.len() - at,
        {
            assert(before[at as int].offset == sorted@[at as int].offset);
            at += 1;
        }
        proof {
            if at < sorted@.len() {
                assert(before[at as int].offset == sorted@[at as int].offset);
            }
            assert(all.take(i + 1).drop_last() == all.take(i as int));
            assert(all.take(i + 1).last() == field@);
        }
        sorted.insert(at, field);
        assert(entries_of(sorted@) =~= before.insert(at as int, field@));
        i += 1;
    }
    assert(all.take(fields@.len() as int) == all);
    sorted
}

/// What stands at a place in a class that was loaded: padding of some
/// bytes, or a stored field.
pub enum Slot {
    Pad(nat),
    Stored(FieldEntry),
}

/// Where the stored field before `index` ends: nought before the first.
pub open spec fn end_before(entries: Seq<FieldEntry>, index: int) -> usize {
    if index <= 0 {
        0
    } else {
        entries[index - 1].offset.wrapping_add(entries[index - 1].kind.width() as usize)
    }
}

/// The bytes that lie unused before the stored field at `index`.
pub open spec fn gap_before(entries: Seq<FieldEntry>, index: int) -> nat {
    if entries[index].offset > end_before(entries, index) {
        (entries[index].offset - end_before(entries, index)) as nat
    } else {
        0
    }
}

/// The places of a class that is loaded from the first `count` stored
/// fields: before each field the padding that fills the gap to the field
/// before it.
pub open spec fn plan(entries: Seq<FieldEntry>, count: int) -> Seq<Slot>
    decreases count,
{
    if count <= 0 {
        Seq::empty()
    } else {
        plan(entries, count - 1) + padding_sizes(gap_before(entries, count - 1)).map_values(
            |size: nat| Slot::Pad(size),
        ) + seq![Slot::Stored(entries[count - 1])]
    }
}

/// A class of the list is called `name` and has the id `id`.
pub open spec fn has_class(classes: Seq<Class>, id: usize, name: Seq<char>) -> bool {
    exists|j: int| 0 <= j < classes.len() && (#[trigger] classes[j]).id == id && classes[j].name@ == name
}

/// The field stands for what the place asks: padding is a hex field of the
/// size; a stored field has its kind and its name, and a pointer leads to a
/// class of the list that bears the stored name.
pub open spec fn fills(field: Field, slot: Slot, classes: Seq<Class>) -> bool {
    match slot {
        Slot::Pad(size) => field.spec_kind().is_hex() && field.spec_size() == size,
        Slot::Stored(entry) => {
            &&& field.spec_kind() == entry.kind
            &&& field.spec_name() == if entry.kind.is_hex() {
                None
            } else {
                Some(entry.name)
            }
            &&& field matches Field::Pointer(pointer) ==> match entry.metadata {
                Some(name) => pointer.target() matches Some(id) && has_class(classes, id, name),
                None => pointer.target() is None,
            }
        },
    }
}

/// The fields stand for the places, one for one.
pub open spec fn laid_out(fields: Seq<Field>, slots: Seq<Slot>, classes: Seq<Class>) -> bool {
    &&& fields.len() == slots.len()
    &&& forall|i: int| 0 <= i < fields.len() ==> fills(#[trigger] fields[i], slots[i], classes)
}

/// The list `after` begins with the classes of `before`, under their ids
/// and names.
pub open spec fn keeps_heads(before: Seq<Class>, after: Seq<Class>) -> bool {
    &&& before.len() <= after.len()
    &&& forall|i: int|
        0 <= i < before.len() ==> (#[trigger] after[i]).id == before[i].id && after[i].name@
            == before[i].name@
}

/// What fills a place keeps filling it when classes are added to the list.
pub proof fn lemma_fills_in_longer_list(
    field: Field,
    slot: Slot,
    before: Seq<Class>,
    after: Seq<Class>,
)
    requires
        fills(field, slot, before),
        keeps_heads(before, after),
    ensures
        fills(field, slot, after),
{
    match slot {
        Slot::Pad(_) => {},
        Slot::Stored(entry) => {
            if let Field::Pointer(pointer) = field {
                if let Some(name) = entry.metadata {
                    let id = pointer.target()->0;
                    let j = choose|j: int|
                        0 <= j < before.len() && (#[trigger] before[j]).id == id && before[j].name@
                            == name;
                    assert(after[j].id == id && after[j].name@ == name);
                }
            }
        },
    }
}

/// Makes the fields of a class from its stored fields, in their order:
/// before each the padding that fills the gap to the field before it. A
/// pointer leads to the first class of the list that bears the stored name;
/// where there is none, a class of that name is added to the list.
pub fn lay_out(entries: &Vec<DataField>, list: &mut ClassList, ids: &mut IdSource) -> (fields: Vec<
    Field,
>)
    ensures
        laid_out(fields@, plan(entries_of(entries@), entries@.len() as int), final(list).list()),
        keeps_heads(old(list).list(), final(list).list()),
        forall|i: int|
            0 <= i < old(list).list().len() ==> final(list).list()[i] == old(list).list()[i],
        final(list).selection() == old(list).selection(),
{
    let ghost all = entries_of(entries@);
    let mut fields: Vec<Field> = Vec::new();
    let mut current_offset: usize = 0;
    let mut i: usize = 0;
    while i < entries.len()
        invariant
            i <= entries@.len(),
            all == entries_of(entries@),
            current_offset == end_before(all, i as int),
            laid_out(fields@, plan(all, i as int), list.list()),
            keeps_heads(old(list).list(), list.list()),
            forall|k: int| 0 <= k < old(list).list().len() ==> list.list()[k] == old(list).list()[k],
            list.selection() == old(list).selection(),
        decreases entries@.len() - i,
    {
        let entry = &entries[i];
        let ghost done = fields@;
        let ghost slots = plan(all, i as int);
        let ghost classes = list.list();
        assert(all[i as int] == entry@);
        let gap: usize = if entry.offset > current_offset {
            entry.offset - current_offset
        } else {
            0
        };
        let mut padding = allocate_padding(gap, ids);
        let ghost filling = padding@;
        let ghost pads = padding_sizes(gap as nat).map_values(|size: nat| Slot::Pad(size));
        let field = match entry.kind {
            FieldKind::Ptr => match &entry.metadata {
                Some(refname) => {
                    let known = match list.by_name(refname.as_str()) {
                        Some(class) => Some(class.id()),
                        None => None,
                    };
                    let id = match known {
                        Some(id) => id,
                        None => list.add_class(refname.clone(), ids),
                    };
                    assert(has_class(list.list(), id, refname@)) by {
                        if known is None {
                            let last = list.list().len() - 1;
                            assert(list.list()[last].id == id);
                        }
                    }
                    Field::Pointer(PointerField::new_with_class_id(entry.name.clone(), id, ids))
                },
                None => Field::Pointer(PointerField::new(entry.name.clone(), ids)),
            },
            other => other.into_field(Some(entry.name.clone()), ids),
        };
        proof {
            let grown = list.list();
            assert(keeps_heads(classes, grown)) by {
                if grown.len() != classes.len() {
                    assert(grown.drop_last() == classes);
                    assert forall|k: int| 0 <= k < classes.len() implies (#[trigger] grown[k]).id
                        == classes[k].id && grown[k].name@ == classes[k].name@ by {
                        assert(grown.drop_last()[k] == grown[k]);
                    }
                }
            }
            assert forall|k: int| 0 <= k < old(list).list().len() implies grown[k] == old(list).list()[k] by {
                if grown.len() != classes.len() {
                    assert(grown.drop_last()[k] == grown[k]);
                }
            }
            assert(fills(field, Slot::Stored(entry@), grown));
            let next = plan(all, i + 1);
            assert(next == slots + pads + seq![Slot::Stored(entry@)]);
            let together = done + filling + seq![field];
            assert forall|k: int| 0 <= k < together.len() implies fills(
                #[trigger] together[k],
                next[k],
                grown,
            ) by {
                if k < done.len() {
                    lemma_fills_in_longer_list(done[k], slots[k], classes, grown);
                } else if k < done.len() + filling.len() {
                    let p = k - done.len();
                    assert(together[k] == filling[p]);
                    assert(sizes_of(filling)[p] == filling[p].spec_size());
                    assert(next[k] == pads[p]);
                }
            }
        }
        fields.append(&mut padding);
        fields.push(field);
        current_offset = entry.offset.wrapping_add(entry.kind.size());
        i += 1;
    }
    fields
}

/// The classes of a project have their homes in a list: the class stored at
/// `k` is the class at `homes[k]`, under its stored name and with its
/// stored fields laid out in the order of their offsets. The homes come in
/// the order of the stored classes.
pub open spec fn loaded(project: Seq<ClassEntry>, homes: Seq<int>, classes: Seq<Class>) -> bool {
    &&& homes.len() == project.len()
    &&& forall|k: int|
        0 <= k < homes.len() ==> {
            &&& 0 <= #[trigger] homes[k] < classes.len()
            &&& k > 0 ==> homes[k - 1] < homes[k]
            &&& classes[homes[k]].name@ == project[k].name
            &&& laid_out(
                classes[homes[k]].fields@,
                plan(by_offset(project[k].fields), project[k].fields.len() as int),
                classes,
            )
        }
}

impl ProjectData {
    /// Makes the classes that the project stores. Each gets a random id and
    /// its stored fields in the order of their offsets, with padding
    /// between them. A pointer leads to the first class that bears the
    /// stored name among those made so far; where there is none yet, a
    /// class of twenty hex fields is made under that name.
    pub fn load(self, ids: &mut IdSource) -> (list: ClassList)
        ensures
            exists|homes: Seq<int>| #[trigger] loaded(self@, homes, list.list()),
            list.selection() is None,
    {
        let mut list = ClassList::empty();
        let ghost mut homes: Seq<int> = Seq::empty();
        let mut k: usize = 0;
        while k < self.classes.len()
            invariant
                k <= self.classes@.len(),
                list.selection() is None,
                loaded(self@.take(k as int), homes, list.list()),
            decreases self.classes@.len() - k,
        {
            let class = &self.classes[k];
            let ghost stored = self@[k as int];
            assert(stored == class@);
            let sorted = sort_by_offset(&class.fields);
            let home: usize = list.classes().len();
            let ghost before = list.list();
            list.add_empty_class(class.name.clone());
            let ghost added = list.list();
            assert(keeps_heads(before, added)) by {
                assert forall|j: int| 0 <= j < before.len() implies (#[trigger] added[j]).id
                    == before[j].id && added[j].name@ == before[j].name@ by {
                    assert(added.drop_last()[j] == added[j]);
                }
            }
            let fields = lay_out(&sorted, &mut list, ids);
            let ghost grown = list.list();
            proof {
                lemma_by_offset_sorts(stored.fields);
                assert(entries_of(class.fields@) == stored.fields);
            }
            list.set_fields(home, fields);
            proof {
                let after = list.list();
                let earlier = self@.take(k as int);
                let all = self@.take(k + 1);
                let new_homes = homes.push(home as int);
                assert(keeps_heads(grown, after));
                assert(keeps_heads(before, after));
                assert forall|j: int| 0 <= j < new_homes.len() implies {
                    &&& 0 <= #[trigger] new_homes[j] < after.len()
                    &&& j > 0 ==> new_homes[j - 1] < new_homes[j]
                    &&& after[new_homes[j]].name@ == all[j].name
                    &&& laid_out(
                        after[new_homes[j]].fields@,
                        plan(by_offset(all[j].fields), all[j].fields.len() as int),
                        after,
                    )
                } by {
                    if j < homes.len() {
                        let h = homes[j];
                        assert(all[j] == earlier[j]);
                        assert(after[h] == grown[h]);
                        assert(grown[h] == added[h]);
                        assert(added.drop_last()[h] == added[h]);
                        let held = before[h].fields@;
                        let slots = plan(by_offset(all[j].fields), all[j].fields.len() as int);
                        assert forall|i: int| 0 <= i < held.len() implies fills(
                            #[trigger] held[i],
                            slots[i],
                            after,
                        ) by {
                            lemma_fills_in_longer_list(held[i], slots[i], before, after);
                        }
                    } else {
                        assert(all[j] == stored);
                        let slots = plan(by_offset(stored.fields), stored.fields.len() as int);
                        assert forall|i: int| 0 <= i < fields@.len() implies fills(
                            #[trigger] fields@[i],
                            slots[i],
                            after,
                        ) by {
                            lemma_fills_in_longer_list(fields@[i], slots[i], grown, after);
                        }
                    }
                }
                homes = new_homes;
            }
            k += 1;
        }
        assert(self@.take(self.classes@.len() as int) == self@);
        list
    }
}

} // verus!
