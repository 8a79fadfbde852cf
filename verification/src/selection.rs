//! Picking fields out of an extraction by their keys.

use crate::bytes::same_text;
use crate::elements::field::Field;
use vstd::prelude::*;

verus! {

/// Whether `var` is one of `names`.
pub open spec fn is_among(var: Seq<char>, names: Seq<&str>) -> bool {
    exists|i: int| 0 <= i < names.len() && (#[trigger] names[i])@ == var
}

/// The fields among `fields` whose key is one of `names`, in the order of
/// `fields`.
pub open spec fn requested_of(fields: Seq<Field>, names: Seq<&str>) -> Seq<Field> {
    fields.filter(|field: Field| is_among(field.var@, names))
}

/// The fields that references point to.
pub open spec fn pointed(fields: Seq<&Field>) -> Seq<Field> {
    fields.map_values(|field: &Field| *field)
}

/// Whether `var` is one of `names`.
pub fn among(var: &str, names: &[&str]) -> (yes: bool)
    ensures
        yes == is_among(var@, names@),
{
    let mut i: usize = 0;
    while i < names.len()
        invariant
            i <= names.len(),
            forall|j: int| 0 <= j < i ==> (#[trigger] names@[j])@ != var@,
        decreases names.len() - i,
    {
        if same_text(var, names[i]) {
            return true;
        }
        i += 1;
    }
    false
}

/// The fields whose key is one of `names`, in the order in which they stand
/// in `fields`. Fields that share a key are all returned.
pub fn requested<'a>(fields: &'a Vec<Field>, names: &[&str]) -> (found: Vec<&'a Field>)
    ensures
        pointed(found@) == requested_of(fields@, names@),
{
    let mut found: Vec<&'a Field> = Vec::new();
    let mut i: usize = 0;
    proof {
        reveal(Seq::filter);
        assert(fields@.take(0) == Seq::<Field>::empty());
        assert(pointed(found@) == Seq::<Field>::empty());
    }
    while i < fields.len()
        invariant
            i <= fields.len(),
            pointed(found@) == requested_of(fields@.take(i as int), names@),
        decreases fields.len() - i,
    {
        let ghost before = pointed(found@);
        let field = &fields[i];
        proof {
            reveal(Seq::filter);
            assert(fields@.take(i + 1).drop_last() == fields@.take(i as int));
            assert(fields@.take(i + 1).last() == fields@[i as int]);
        }
        if among(field.var.as_str(), names) {
            found.push(field);
            proof {
                assert(pointed(found@) == before.push(*field));
            }
        }
        i += 1;
    }
    proof {
        assert(fields@.take(fields.len() as int) == fields@);
    }
    found
}

} // verus!
