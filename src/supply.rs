use vstd::prelude::*;

use crate::types::Type;

verus! {

/// A monotonic source of type-variable ids.
#[derive(Debug)]
pub struct Supply {
    next: u32,
}

impl Supply {
    /// The id that the next draw hands out.
    pub closed spec fn next_id(&self) -> nat {
        self.next as nat
    }

    /// A supply whose first id is 0.
    pub fn new() -> (r: Supply)
        ensures
            r.next_id() == 0,
    {
        Supply { next: 0 }
    }

    /// A supply whose first id is `first`.
    pub fn starting_at(first: u32) -> (r: Supply)
        ensures
            r.next_id() == first,
    {
        Supply { next: first }
    }

    /// The id that the next draw hands out.
    pub fn peek(&self) -> (r: u32)
        ensures
            r == self.next_id(),
    {
        self.next
    }

    /// Whether `n` more ids can be drawn.
    pub fn has_room(&self, n: u64) -> (r: bool)
        ensures
            r == (self.next_id() + n <= u32::MAX),
    {
        n <= (u32::MAX - self.next) as u64
    }
}

/// Draws a type-variable id that no earlier draw from `supply` handed out.
pub fn fresh_type_id(supply: &mut Supply) -> (r: u32)
    requires
        old(supply).next_id() < u32::MAX,
    ensures
        r == old(supply).next_id(),
        final(supply).next_id() == old(supply).next_id() + 1,
{
    let id = supply.next;
    supply.next = supply.next + 1;
    id
}

/// A type variable whose id no earlier draw from `supply` handed out.
pub fn fresh_type_var(supply: &mut Supply) -> (r: Type)
    requires
        old(supply).next_id() < u32::MAX,
    ensures
        r == Type::Unknown(old(supply).next_id() as u32),
        final(supply).next_id() == old(supply).next_id() + 1,
{
    let id = fresh_type_id(supply);
    Type::Unknown(id)
}

/// One draw: `id` was handed out by a supply in state `before`, leaving it in state `after`.
pub open spec fn draws(before: Supply, id: u32, after: Supply) -> bool {
    id == before.next_id() && after.next_id() == before.next_id() + 1
}

/// Two draws, the second from a state that the supply reached after the first, never hand
/// out the same id.
pub proof fn lemma_fresh_ids_distinct(
    before1: Supply,
    id1: u32,
    after1: Supply,
    before2: Supply,
    id2: u32,
    after2: Supply,
)
    requires
        draws(before1, id1, after1),
        draws(before2, id2, after2),
        after1.next_id() <= before2.next_id(),
    ensures
        id1 != id2,
        id1 < id2,
{
}

} // verus!
