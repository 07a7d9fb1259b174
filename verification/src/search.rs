//! Which fields of an index a query searches when it names none.

use vstd::prelude::*;

verus! {

/// The most documents that a search returns.
pub const RESULT_LIMIT: usize = 10;

/// Whether `name` is one of `names`.
pub open spec fn names_field(names: Seq<String>, name: Seq<char>) -> bool {
    exists|i: int| 0 <= i < names.len() && (#[trigger] names[i])@ == name
}

/// Whether the caller wants the field `name` searched: a caller who lists no
/// fields wants all of them, one who lists fields wants those.
pub open spec fn wants(fields: Option<&Vec<String>>, name: Seq<char>) -> bool {
    match fields {
        None => true,
        Some(names) => names_field(names@, name),
    }
}

/// Whether the caller wants the field `name` searched.
pub fn want_field(fields: Option<&Vec<String>>, name: &String) -> (want: bool)
    ensures
        want == wants(fields, name@),
{
    match fields {
        None => true,
        Some(names) => {
            let mut i: usize = 0;
            while i < names.len()
                invariant
                    fields == Some(names),
                    i <= names@.len(),
                    forall|j: int| 0 <= j < i ==> (#[trigger] names@[j])@ != name@,
                decreases names@.len() - i,
            {
                if names[i] == *name {
                    assert(names@[i as int]@ == name@);
                    return true;
                }
                i += 1;
            }
            false
        },
    }
}

/// Whether a query that names no field searches the field `name`: only a text
/// field that is indexed and that the caller wants is searched.
pub fn is_default_field(
    fields: Option<&Vec<String>>,
    name: &String,
    is_text: bool,
    is_indexed: bool,
) -> (searched: bool)
    ensures
        searched == (is_text && is_indexed && wants(fields, name@)),
{
    is_text && is_indexed && want_field(fields, name)
}

} // verus!
