use crate::field::{Field, FieldId, HexField, IdSource};
use vstd::prelude::*;

verus! {

/// What the fields take together, in bytes.
pub open spec fn total_size(fields: Seq<Field>) -> nat
    decreases fields.len(),
{
    if fields.len() == 0 {
        0
    } else {
        total_size(fields.drop_last()) + fields.last().spec_size()
    }
}

/// The sizes of the hex fields that fill `n` bytes, the largest first: as
/// many fields of eight bytes as fit, then at most one each of four, of two
/// and of one.
pub open spec fn padding_sizes(n: nat) -> Seq<nat>
    decreases n,
{
    if n >= 8 {
        seq![8nat] + padding_sizes((n - 8) as nat)
    } else if n >= 4 {
        seq![4nat] + padding_sizes((n - 4) as nat)
    } else if n >= 2 {
        seq![2nat] + padding_sizes((n - 2) as nat)
    } else if n == 1 {
        seq![1nat]
    } else {
        Seq::empty()
    }
}

/// The sizes of the fields, in their order.
pub open spec fn sizes_of(fields: Seq<Field>) -> Seq<nat> {
    fields.map_values(|f: Field| f.spec_size())
}

/// The id that the source hands out `steps` ids after `first`.
pub open spec fn id_after(first: FieldId, steps: nat) -> FieldId
    decreases steps,
{
    if steps == 0 {
        first
    } else {
        id_after(first, (steps - 1) as nat).wrapping_add(1)
    }
}

/// `fields` are hex fields under ids that count up from `first`.
pub open spec fn is_padding(fields: Seq<Field>, first: FieldId) -> bool {
    forall|i: int|
        0 <= i < fields.len() ==> {
            &&& (#[trigger] fields[i]).spec_kind().is_hex()
            &&& fields[i].spec_id() == id_after(first, i as nat)
        }
}

/// Adding a field adds its size.
pub proof fn lemma_total_size_push(fields: Seq<Field>, field: Field)
    ensures
        total_size(fields.push(field)) == total_size(fields) + field.spec_size(),
{
    assert(fields.push(field).drop_last() == fields);
}

/// Adds one hex field of `size` bytes under the next id of the source.
fn push_hex(fields: &mut Vec<Field>, size: usize, ids: &mut IdSource)
    requires
        size == 1 || size == 2 || size == 4 || size == 8,
    ensures
        final(fields)@.len() == old(fields)@.len() + 1,
        final(fields)@.drop_last() == old(fields)@,
        final(fields)@.last().spec_kind().is_hex(),
        final(fields)@.last().spec_size() == size,
        final(fields)@.last().spec_id() == old(ids).upcoming(),
        final(ids).upcoming() == old(ids).upcoming().wrapping_add(1),
        total_size(final(fields)@) == total_size(old(fields)@) + size,
        sizes_of(final(fields)@) == sizes_of(old(fields)@).push(size as nat),
{
    let field = if size == 8 {
        Field::Hex64(HexField::new(ids))
    } else if size == 4 {
        Field::Hex32(HexField::new(ids))
    } else if size == 2 {
        Field::Hex16(HexField::new(ids))
    } else {
        Field::Hex8(HexField::new(ids))
    };
    proof {
        lemma_total_size_push(fields@, field);
    }
    fields.push(field);
    assert(sizes_of(fields@) =~= sizes_of(old(fields)@).push(size as nat));
}

/// Hex fields that fill `n` bytes, under the next ids of the source.
pub fn allocate_padding(n: usize, ids: &mut IdSource) -> (fields: Vec<Field>)
    ensures
        sizes_of(fields@) == padding_sizes(n as nat),
        is_padding(fields@, old(ids).upcoming()),
        total_size(fields@) == n,
        final(ids).upcoming() == id_after(old(ids).upcoming(), fields@.len()),
{
    let ghost first = ids.upcoming();
    let mut fields: Vec<Field> = Vec::new();
    let mut left: usize = n;
    assert(sizes_of(fields@) + padding_sizes(left as nat) =~= padding_sizes(n as nat));
    loop
        invariant
            left <= n,
            total_size(fields@) == n - left,
            sizes_of(fields@) + padding_sizes(left as nat) == padding_sizes(n as nat),
            ids.upcoming() == id_after(first, fields@.len()),
            is_padding(fields@, first),
        ensures
            left == 0,
        decreases left,
    {
        if left == 0 {
            break ;
        }
        let size: usize = if left >= 8 {
            8
        } else if left >= 4 {
            4
        } else if left >= 2 {
            2
        } else {
            1
        };
        let ghost before = fields@;
        let ghost rest = padding_sizes((left - size) as nat);
        assert(padding_sizes(left as nat) =~= seq![size as nat] + rest);
        push_hex(&mut fields, size, ids);
        assert(sizes_of(before).push(size as nat) + rest =~= sizes_of(before) + (seq![
            size as nat,
        ] + rest));
        assert forall|i: int| 0 <= i < fields@.len() implies (#[trigger] fields@[i]).spec_kind().is_hex()
            && fields@[i].spec_id() == id_after(first, i as nat) by {
            if i < before.len() {
                assert(fields@[i] == fields@.drop_last()[i]);
            }
        }
        left -= size;
    }
    assert(sizes_of(fields@) + Seq::<nat>::empty() =~= sizes_of(fields@));
    fields
}

} // verus!
