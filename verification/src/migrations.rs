//! Which schema migrations a database still needs: the schema version is a
//! number, and every migration above the stored version runs once, in
//! order.

use vstd::prelude::*;

verus! {

/// Version of the schema once every migration has been applied.
pub const CURRENT_SCHEMA_VERSION: u32 = 3;

/// The migrations still to apply to a database at schema version
/// `current`, in order: every version above `current` up to
/// `CURRENT_SCHEMA_VERSION`; none when the database is up to date.
pub fn pending_migrations(current: u32) -> (r: Vec<u32>)
    ensures
        current >= CURRENT_SCHEMA_VERSION ==> r@.len() == 0,
        current < CURRENT_SCHEMA_VERSION ==> r@.len() == CURRENT_SCHEMA_VERSION - current,
        forall|i: int| 0 <= i < r@.len() ==> #[trigger] r@[i] == current + 1 + i,
{
    let mut r: Vec<u32> = Vec::new();
    if current >= CURRENT_SCHEMA_VERSION {
        return r;
    }
    let mut v: u32 = current + 1;
    while v <= CURRENT_SCHEMA_VERSION
        invariant
            current < CURRENT_SCHEMA_VERSION,
            current + 1 <= v <= CURRENT_SCHEMA_VERSION + 1,
            r@.len() == v - current - 1,
            forall|i: int| 0 <= i < r@.len() ==> #[trigger] r@[i] == current + 1 + i,
        decreases CURRENT_SCHEMA_VERSION + 1 - v,
    {
        r.push(v);
        v = v + 1;
    }
    r
}

} // verus!
