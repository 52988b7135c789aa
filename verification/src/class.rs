//! Classes: named lists of fields that are laid over memory one after the
//! other.

use crate::context::ClassId;
use crate::field::utils::{is_padding, padding_sizes, sizes_of, total_size};
use crate::field::{allocate_padding, Field, FieldId, FieldKind, IdSource};
use vstd::prelude::*;
use vstd::string::*;

verus! {

/// A class: a name and the fields in the order in which they lie in memory.
pub struct Class {
    /// The number by which the class is told from all others.
    pub id: ClassId,
    pub name: String,
    pub fields: Vec<Field>,
}

/// The index of the first field under `id`, at `from` or behind it.
pub open spec fn field_position(fields: Seq<Field>, id: FieldId, from: int) -> Option<int>
    decreases fields.len() - from,
{
    if from < 0 || from >= fields.len() {
        None
    } else if fields[from].spec_id() == id {
        Some(from)
    } else {
        field_position(fields, id, from + 1)
    }
}

/// How many fields from `from` on are taken away to make room for `need`
/// bytes: as few as give enough bytes, and all that are left if they do not
/// give enough.
pub open spec fn fields_taken(fields: Seq<Field>, from: int, need: int) -> nat
    decreases fields.len() - from,
{
    if need <= 0 || from < 0 || from >= fields.len() {
        0
    } else {
        1 + fields_taken(fields, from + 1, need - fields[from].spec_size())
    }
}

/// What the parts of a list of fields take is what the list takes.
pub proof fn lemma_total_size_add(left: Seq<Field>, right: Seq<Field>)
    ensures
        total_size(left + right) == total_size(left) + total_size(right),
    decreases right.len(),
{
    if right.len() == 0 {
        assert(left + right == left);
    } else {
        assert((left + right).drop_last() == left + right.drop_last());
        lemma_total_size_add(left, right.drop_last());
    }
}

/// One field takes its size.
pub proof fn lemma_total_size_one(field: Field)
    ensures
        total_size(seq![field]) == field.spec_size(),
{
    assert(seq![field].drop_last() == Seq::<Field>::empty());
    assert(total_size(Seq::<Field>::empty()) == 0);
    assert(seq![field].last() == field);
}

impl Class {
    pub open spec fn spec_id(&self) -> ClassId {
        self.id
    }

    /// What the class takes in memory, in bytes.
    pub open spec fn size(&self) -> nat {
        total_size(self.fields@)
    }

    /// A class of twenty hex fields of eight bytes each.
    pub fn new(id: ClassId, name: String, ids: &mut IdSource) -> (class: Class)
        ensures
            class.spec_id() == id,
            class.name@ == name@,
            class.fields@.len() == 20,
            is_padding(class.fields@, old(ids).upcoming()),
            sizes_of(class.fields@) == Seq::new(20, |i: int| 8nat),
            class.size() == 160,
    {
        let fields = allocate_padding(160, ids);
        proof {
            reveal_with_fuel(padding_sizes, 21);
            assert(padding_sizes(160) =~= Seq::new(20, |i: int| 8nat));
        }
        Class { id, name, fields }
    }

    /// A class without fields.
    pub fn empty(id: ClassId, name: String) -> (class: Class)
        ensures
            class.spec_id() == id,
            class.name@ == name@,
            class.fields@.len() == 0,
    {
        Class { id, name, fields: Vec::new() }
    }

    pub fn id(&self) -> (id: ClassId)
        ensures
            id == self.spec_id(),
    {
        self.id
    }

    /// The index of the field under `field_id`.
    pub fn position(&self, field_id: FieldId) -> (position: Option<usize>)
        ensures
            match position {
                Some(i) => field_position(self.fields@, field_id, 0) == Some(i as int) && i
                    < self.fields@.len(),
                None => field_position(self.fields@, field_id, 0) is None,
            },
    {
        let mut i: usize = 0;
        while i < self.fields.len()
            invariant
                i <= self.fields@.len(),
                field_position(self.fields@, field_id, 0) == field_position(
                    self.fields@,
                    field_id,
                    i as int,
                ),
            decreases self.fields@.len() - i,
        {
            if self.fields[i].id() == field_id {
                return Some(i);
            }
            i += 1;
        }
        None
    }

    /// Adds `n` bytes of hex fields to the end of the class.
    pub fn add_bytes(&mut self, n: usize, ids: &mut IdSource)
        ensures
            final(self).spec_id() == old(self).spec_id(),
            final(self).name == old(self).name,
            final(self).fields@.len() >= old(self).fields@.len(),
            final(self).fields@.take(old(self).fields@.len() as int) == old(self).fields@,
            sizes_of(final(self).fields@.skip(old(self).fields@.len() as int)) == padding_sizes(
                n as nat,
            ),
            is_padding(
                final(self).fields@.skip(old(self).fields@.len() as int),
                old(ids).upcoming(),
            ),
            final(self).size() == old(self).size() + n,
    {
        let mut padding = allocate_padding(n, ids);
        proof {
            lemma_total_size_add(self.fields@, padding@);
            assert((self.fields@ + padding@).take(self.fields@.len() as int) == self.fields@);
            assert((self.fields@ + padding@).skip(self.fields@.len() as int) == padding@);
        }
        self.fields.append(&mut padding);
    }

    /// Takes `n` fields away, from the one under `field_id` on, or as many
    /// as there are. Says whether the class has a field under that id.
    pub fn remove_fields(&mut self, field_id: FieldId, n: usize) -> (found: bool)
        ensures
            final(self).spec_id() == old(self).spec_id(),
            final(self).name == old(self).name,
            match field_position(old(self).fields@, field_id, 0) {
                Some(pos) => {
                    let to = if pos + n < old(self).fields@.len() {
                        pos + n
                    } else {
                        old(self).fields@.len() as int
                    };
                    found && final(self).fields@ == old(self).fields@.take(pos) + old(self).fields@.skip(to)
                },
                None => !found && final(self).fields@ == old(self).fields@,
            },
    {
        match self.position(field_id) {
            None => false,
            Some(pos) => {
                let len = self.fields.len();
                let to: usize = if n < len - pos {
                    pos + n
                } else {
                    len
                };
                let mut tail = self.fields.split_off(pos);
                let mut rest = tail.split_off(to - pos);
                assert(rest@ == old(self).fields@.skip(to as int));
                self.fields.append(&mut rest);
                true
            },
        }
    }

    /// Puts `n` bytes of hex fields before the field under `field_id`. Says
    /// whether the class has a field under that id.
    pub fn insert_bytes(&mut self, field_id: FieldId, n: usize, ids: &mut IdSource) -> (found: bool)
        ensures
            final(self).spec_id() == old(self).spec_id(),
            final(self).name == old(self).name,
            match field_position(old(self).fields@, field_id, 0) {
                Some(pos) => {
                    let padding = final(self).fields@.subrange(
                        pos,
                        final(self).fields@.len() - (old(self).fields@.len() - pos),
                    );
                    &&& found
                    &&& final(self).fields@ == old(self).fields@.take(pos) + padding + old(self).fields@.skip(pos)
                    &&& sizes_of(padding) == padding_sizes(n as nat)
                    &&& is_padding(padding, old(ids).upcoming())
                    &&& final(self).size() == old(self).size() + n
                },
                None => !found && final(self).fields@ == old(self).fields@ && final(ids).upcoming()
                    == old(ids).upcoming(),
            },
    {
        match self.position(field_id) {
            None => false,
            Some(pos) => {
                let mut padding = allocate_padding(n, ids);
                let mut tail = self.fields.split_off(pos);
                let ghost head = self.fields@;
                let ghost filling = padding@;
                let ghost behind = tail@;
                self.fields.append(&mut padding);
                self.fields.append(&mut tail);
                proof {
                    assert(head + behind == old(self).fields@);
                    lemma_total_size_add(head, behind);
                    lemma_total_size_add(head, filling);
                    lemma_total_size_add(head + filling, behind);
                    assert(self.fields@.subrange(pos as int, self.fields@.len() - behind.len())
                        == filling);
                }
                true
            },
        }
    }

    /// Makes the field under `field_id` one of the kind `new`, with its
    /// name and a new id. A smaller kind leaves room that is filled with hex
    /// fields; a larger one takes the room of the fields behind it, as many
    /// as it needs, and what it takes too much is filled with hex fields.
    /// Gives the new id, or nothing if the class has no field under
    /// `field_id`.
    pub fn change_kind(&mut self, field_id: FieldId, new: FieldKind, ids: &mut IdSource) -> (changed:
        Option<FieldId>)
        ensures
            final(self).spec_id() == old(self).spec_id(),
            final(self).name == old(self).name,
            match field_position(old(self).fields@, field_id, 0) {
                Some(pos) => {
                    let before = old(self).fields@;
                    let after = final(self).fields@;
                    let taken = if before[pos].spec_size() > new.width() {
                        1
                    } else {
                        fields_taken(before, pos, new.width() as int)
                    };
                    let room = total_size(before.subrange(pos, pos + taken));
                    let spare = if room > new.width() {
                        (room - new.width()) as nat
                    } else {
                        0
                    };
                    let padding = after.subrange(pos + 1, after.len() - (before.len() - pos - taken));
                    &&& changed == Some(after[pos].spec_id())
                    &&& pos + taken <= before.len()
                    &&& after == before.take(pos) + seq![after[pos]] + padding + before.skip(
                        pos + taken,
                    )
                    &&& after[pos].spec_kind() == new
                    &&& after[pos].spec_name() == if new.is_hex() {
                        None
                    } else {
                        Some(
                            match before[pos].spec_name() {
                                Some(name) => name,
                                None => new.default_name(),
                            },
                        )
                    }
                    &&& sizes_of(padding) == padding_sizes(spare)
                    &&& is_padding(padding, old(ids).upcoming())
                    &&& room >= new.width() ==> final(self).size() == old(self).size()
                },
                None => changed is None && final(self).fields@ == old(self).fields@ && final(ids).upcoming() == old(ids).upcoming(),
            },
    {
        let pos = match self.position(field_id) {
            None => { return None; },
            Some(pos) => pos,
        };
        let ghost before = self.fields@;
        let need: usize = new.size();
        let old_size: usize = self.fields[pos].size();
        let old_name: Option<String> = self.fields[pos].name();
        let mut tail = self.fields.split_off(pos);
        let ghost head = self.fields@;
        assert(tail@ == before.skip(pos as int));
        let mut taken: usize = 0;
        let mut room: usize = 0;
        if old_size > need {
            taken = 1;
            room = old_size;
            assert(before.subrange(pos as int, pos + 1) == seq![before[pos as int]]);
            proof {
                lemma_total_size_one(before[pos as int]);
            }
        } else {
            assert(before.subrange(pos as int, pos as int) == Seq::<Field>::empty());
            while room < need && taken < tail.len()
                invariant
                    taken <= tail@.len(),
                    tail@ == before.skip(pos as int),
                    pos <= before.len(),
                    need <= 8,
                    taken <= room <= 8 * taken,
                    taken <= 8,
                    room == total_size(before.subrange(pos as int, pos + taken)),
                    fields_taken(before, pos as int, need as int) == taken + fields_taken(
                        before,
                        pos + taken,
                        need - room,
                    ),
                decreases tail@.len() - taken,
            {
                let size = tail[taken].size();
                proof {
                    assert(tail@[taken as int] == before[pos + taken]);
                    assert(before.subrange(pos as int, pos + taken + 1) == before.subrange(
                        pos as int,
                        pos + taken,
                    ).push(before[pos + taken]));
                    crate::field::utils::lemma_total_size_push(
                        before.subrange(pos as int, pos + taken),
                        before[pos + taken],
                    );
                }
                room = room + size;
                taken = taken + 1;
            }
        }
        let spare: usize = if room > need {
            room - need
        } else {
            0
        };
        let mut rest = tail.split_off(taken);
        assert(rest@ == before.skip(pos + taken));
        let mut padding = allocate_padding(spare, ids);
        let field = new.into_field(old_name, ids);
        let id = field.id();
        let ghost filling = padding@;
        self.fields.push(field);
        self.fields.append(&mut padding);
        self.fields.append(&mut rest);
        proof {
            let after = self.fields@;
            assert(after == head + seq![field] + filling + before.skip(pos + taken));
            assert(after[pos as int] == field);
            assert(after.subrange(pos + 1, after.len() - (before.len() - pos - taken)) == filling);
            if room >= need {
                let gone = before.subrange(pos as int, pos + taken);
                let behind = before.skip(pos + taken);
                assert(before == head + gone + behind);
                lemma_total_size_add(head, gone);
                lemma_total_size_add(head + gone, behind);
                lemma_total_size_add(head, seq![field]);
                lemma_total_size_add(head + seq![field], filling);
                lemma_total_size_add(head + seq![field] + filling, behind);
                lemma_total_size_one(field);
            }
        }
        Some(id)
    }
}

/// `fastrand::usize` over all numbers: the next number of the thread's
/// generator. Nothing is known of it.
#[verifier::external_body]
fn random_id() -> usize {
    fastrand::usize(..)
}

/// The classes of a project, and which of them is selected.
pub struct ClassList {
    classes: Vec<Class>,
    selected: Option<usize>,
}

/// The index of the first class under `id`, at `from` or behind it.
pub open spec fn class_position(classes: Seq<Class>, id: ClassId, from: int) -> Option<int>
    decreases classes.len() - from,
{
    if from < 0 || from >= classes.len() {
        None
    } else if classes[from].id == id {
        Some(from)
    } else {
        class_position(classes, id, from + 1)
    }
}

/// The index of the first class called `name`, at `from` or behind it.
pub open spec fn class_named(classes: Seq<Class>, name: Seq<char>, from: int) -> Option<int>
    decreases classes.len() - from,
{
    if from < 0 || from >= classes.len() {
        None
    } else if classes[from].name@ == name {
        Some(from)
    } else {
        class_named(classes, name, from + 1)
    }
}

impl ClassList {
    /// The classes, in the order in which they were added.
    pub closed spec fn list(&self) -> Seq<Class> {
        self.classes@
    }

    /// The id of the selected class.
    pub closed spec fn selection(&self) -> Option<ClassId> {
        self.selected
    }

    /// A list without a class, with none selected.
    pub fn empty() -> (list: ClassList)
        ensures
            list.list() == Seq::<Class>::empty(),
            list.selection() is None,
    {
        ClassList { classes: Vec::new(), selected: None }
    }

    /// The list that a new project begins with: one class of twenty hex
    /// fields, called `FirstClass`, under the id zero, and selected.
    pub fn with_first_class(ids: &mut IdSource) -> (list: ClassList)
        ensures
            list.list().len() == 1,
            list.list()[0].id == 0,
            list.list()[0].name@ == "FirstClass"@,
            list.list()[0].fields@.len() == 20,
            list.list()[0].size() == 160,
            list.selection() == Some(0usize),
    {
        let mut classes: Vec<Class> = Vec::new();
        classes.push(Class::new(0, String::from_str("FirstClass"), ids));
        ClassList { classes, selected: Some(0) }
    }

    pub fn classes(&self) -> (classes: &Vec<Class>)
        ensures
            classes@ == self.list(),
    {
        &self.classes
    }

    /// Adds a class without fields under a random id, and gives the id.
    pub fn add_empty_class(&mut self, name: String) -> (id: usize)
        ensures
            final(self).list().len() == old(self).list().len() + 1,
            final(self).list().drop_last() == old(self).list(),
            final(self).list().last().id == id,
            final(self).list().last().name@ == name@,
            final(self).list().last().fields@.len() == 0,
            final(self).selection() == old(self).selection(),
    {
        let id = random_id();
        self.classes.push(Class::empty(id, name));
        id
    }

    /// Adds a class of twenty hex fields under a random id, and gives the
    /// id.
    pub fn add_class(&mut self, name: String, ids: &mut IdSource) -> (id: usize)
        ensures
            final(self).list().len() == old(self).list().len() + 1,
            final(self).list().drop_last() == old(self).list(),
            final(self).list().last().id == id,
            final(self).list().last().name@ == name@,
            final(self).list().last().size() == 160,
            final(self).selection() == old(self).selection(),
    {
        let id = random_id();
        self.classes.push(Class::new(id, name, ids));
        id
    }

    /// Adds a class of twenty hex fields under `id`.
    pub fn add_class_with_id(&mut self, name: String, id: usize, ids: &mut IdSource)
        ensures
            final(self).list().len() == old(self).list().len() + 1,
            final(self).list().drop_last() == old(self).list(),
            final(self).list().last().id == id,
            final(self).list().last().name@ == name@,
            final(self).list().last().size() == 160,
            final(self).selection() == old(self).selection(),
    {
        self.classes.push(Class::new(id, name, ids));
    }

    /// The classes, to be changed in their places. None can be added or
    /// taken away.
    pub fn classes_mut(&mut self) -> (classes: &mut [Class])
        ensures
            classes@ == old(self).list(),
            final(classes)@ == final(self).list(),
            final(self).selection() == old(self).selection(),
    {
        self.classes.as_mut_slice()
    }

    /// The id of the selected class, to be changed in its place.
    pub fn selected_mut(&mut self) -> (selected: &mut Option<usize>)
        ensures
            *selected == old(self).selection(),
            *final(selected) == final(self).selection(),
            final(self).list() == old(self).list(),
    {
        &mut self.selected
    }

    pub fn selected(&self) -> (selected: Option<usize>)
        ensures
            selected == self.selection(),
    {
        self.selected
    }

    /// Selects the class under this id, or none.
    pub fn select(&mut self, selected: Option<usize>)
        ensures
            final(self).selection() == selected,
            final(self).list() == old(self).list(),
    {
        self.selected = selected;
    }

    /// The index of the first class under `id`.
    pub fn position(&self, id: usize) -> (position: Option<usize>)
        ensures
            match position {
                Some(i) => class_position(self.list(), id, 0) == Some(i as int) && i
                    < self.list().len() && self.list()[i as int].id == id,
                None => class_position(self.list(), id, 0) is None,
            },
    {
        let mut i: usize = 0;
        while i < self.classes.len()
            invariant
                i <= self.classes@.len(),
                class_position(self.classes@, id, 0) == class_position(self.classes@, id, i as int),
            decreases self.classes@.len() - i,
        {
            if self.classes[i].id == id {
                return Some(i);
            }
            i += 1;
        }
        None
    }

    /// The first class under `id`.
    pub fn by_id(&self, id: usize) -> (class: Option<&Class>)
        ensures
            match class {
                Some(c) => class_position(self.list(), id, 0) matches Some(i) && *c
                    == self.list()[i] && c.id == id,
                None => class_position(self.list(), id, 0) is None,
            },
    {
        match self.position(id) {
            Some(i) => Some(&self.classes[i]),
            None => None,
        }
    }

    /// The first class under `id`, to be changed in its place: the list
    /// holds what the class is changed to.
    pub fn by_id_mut(&mut self, id: usize) -> (class: Option<&mut Class>)
        ensures
            final(self).selection() == old(self).selection(),
            match class {
                Some(c) => class_position(old(self).list(), id, 0) matches Some(i) && *c == old(self).list()[i] && final(self).list() == old(self).list().update(i, *final(c)),
                None => class_position(old(self).list(), id, 0) is None && final(self).list()
                    == old(self).list(),
            },
    {
        match self.position(id) {
            Some(i) => Some(&mut self.classes[i]),
            None => None,
        }
    }

    /// Gives the class at `index` these fields in place of those it has.
    pub fn set_fields(&mut self, index: usize, fields: Vec<Field>)
        requires
            index < old(self).list().len(),
        ensures
            final(self).selection() == old(self).selection(),
            final(self).list().len() == old(self).list().len(),
            final(self).list()[index as int].fields == fields,
            final(self).list()[index as int].id == old(self).list()[index as int].id,
            final(self).list()[index as int].name == old(self).list()[index as int].name,
            forall|i: int|
                0 <= i < old(self).list().len() && i != index ==> final(self).list()[i] == old(self).list()[i],
    {
        self.classes[index].fields = fields;
    }

    /// The first class called `name`.
    pub fn by_name(&self, name: &str) -> (class: Option<&Class>)
        ensures
            match class {
                Some(c) => class_named(self.list(), name@, 0) matches Some(i) && 0 <= i
                    < self.list().len() && *c == self.list()[i] && c.name@ == name@,
                None => class_named(self.list(), name@, 0) is None,
            },
    {
        let wanted = String::from_str(name);
        let mut i: usize = 0;
        while i < self.classes.len()
            invariant
                i <= self.classes@.len(),
                wanted@ == name@,
                class_named(self.classes@, name@, 0) == class_named(self.classes@, name@, i as int),
            decreases self.classes@.len() - i,
        {
            if self.classes[i].name == wanted {
                assert(class_named(self.classes@, name@, i as int) == Some(i as int));
                return Some(&self.classes[i]);
            }
            i += 1;
        }
        None
    }

    /// Takes every class under `id` out of the list.
    pub fn delete_by_id(&mut self, id: usize)
        ensures
            final(self).list() == old(self).list().filter(|c: Class| c.id != id),
            final(self).selection() == old(self).selection(),
    {
        let mut kept: Vec<Class> = Vec::new();
        let ghost all = self.classes@;
        let ghost stays = |c: Class| c.id != id;
        while self.classes.len() > 0
            invariant
                self.classes@ == all.take(self.classes@.len() as int),
                self.classes@.len() <= all.len(),
                self.selected == old(self).selected,
                stays == |c: Class| c.id != id,
                kept@.reverse() == all.skip(self.classes@.len() as int).filter(stays),
            decreases self.classes@.len(),
        {
            let ghost n = self.classes@.len() as int;
            let ghost held = kept@;
            let class = self.classes.pop().unwrap();
            proof {
                assert(class == all[n - 1]);
                assert(all.skip(n - 1) == seq![all[n - 1]] + all.skip(n));
                all.skip(n).lemma_filter_prepend(class, stays);
                assert(self.classes@ == all.take(n - 1));
            }
            if class.id != id {
                kept.push(class);
                assert(held.push(class).reverse() == seq![class] + held.reverse());
            }
        }
        assert(all.skip(0) == all);
        while kept.len() > 0
            invariant
                self.selected == old(self).selected,
                self.classes@ + kept@.reverse() == all.filter(stays),
            decreases kept@.len(),
        {
            let ghost done = self.classes@;
            let ghost left = kept@;
            let class = kept.pop().unwrap();
            self.classes.push(class);
            assert(left.reverse() == seq![class] + left.drop_last().reverse());
            assert(done.push(class) + left.drop_last().reverse() == done + (seq![class]
                + left.drop_last().reverse()));
        }
        assert(kept@.reverse() == Seq::<Class>::empty());
        assert(self.classes@ + Seq::<Class>::empty() == self.classes@);
    }

    /// The selected class, if one is selected and it is in the list.
    pub fn selected_class(&self) -> (class: Option<&Class>)
        ensures
            match class {
                Some(c) => self.selection() matches Some(id) && class_position(
                    self.list(),
                    id,
                    0,
                ) matches Some(i) && *c == self.list()[i],
                None => self.selection() matches Some(id) ==> class_position(self.list(), id, 0)
                    is None,
            },
    {
        match self.selected {
            Some(id) => self.by_id(id),
            None => None,
        }
    }
}

} // verus!
