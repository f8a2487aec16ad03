use vstd::prelude::*;

use crate::subst::{apply, entries_map, lemma_entries_map_bindings, lemma_free_apply, Substitution};
use crate::supply::{fresh_type_var, Supply};
use crate::types::{free, Type};

verus! {

/// The bindings that send the `i`-th quantified id to the fresh variable `first + i`.
pub open spec fn renaming_entries(q: Seq<u32>, first: nat) -> Seq<(u32, Type)> {
    Seq::new(q.len(), |i: int| (q[i], Type::Unknown((first + i) as u32)))
}

/// `body` with its quantified ids `q` renamed to the fresh ids `first`, `first + 1`, ...
pub open spec fn instantiate_spec(q: Seq<u32>, body: Type, first: nat) -> Type {
    apply(entries_map(renaming_entries(q, first)), body)
}

/// A variable of an instance is a variable of the body that is not quantified, or one of the
/// fresh ids.
pub proof fn lemma_instantiate_free(q: Seq<u32>, body: Type, first: nat, x: u32)
    requires
        free(instantiate_spec(q, body, first)).contains(x),
        first + q.len() <= u32::MAX,
    ensures
        (free(body).contains(x) && !q.contains(x)) || (first <= x < first + q.len()),
{
    let e = renaming_entries(q, first);
    lemma_free_apply(entries_map(e), body, x);
    lemma_entries_map_bindings(e);
    if exists|k: u32|
        free(body).contains(k) && entries_map(e).contains_key(k) && #[trigger] free(entries_map(e)[k]).contains(x) {
        let k = choose|k: u32|
            free(body).contains(k) && entries_map(e).contains_key(k) && #[trigger] free(entries_map(e)[k]).contains(x);
        let j = choose|j: int| 0 <= j < e.len() && e[j].0 == k && e[j].1 == entries_map(e)[k];
        assert(free(e[j].1).contains(x));
    } else {
        if q.contains(x) {
            let j = choose|j: int| 0 <= j < q.len() && q[j] == x;
            assert(e[j].0 == x);
        }
    }
}

/// Opens the scheme `quantified`, `t`: each quantified id becomes a fresh variable.
pub fn instantiate(quantified: &Vec<u32>, t: &Type, supply: &mut Supply) -> (r: Type)
    requires
        old(supply).next_id() + quantified.len() <= u32::MAX,
    ensures
        r == instantiate_spec(quantified@, *t, old(supply).next_id()),
        final(supply).next_id() == old(supply).next_id() + quantified.len(),
        (forall|a: u32| quantified@.contains(a) ==> a < old(supply).next_id()) ==> free(r).disjoint(
            quantified@.to_set(),
        ),
{
    let ghost first = supply.next_id();
    let mut subs = Substitution::new();
    let mut i: usize = 0;
    while i < quantified.len()
        invariant
            0 <= i <= quantified.len(),
            supply.next_id() == first + i,
            first + quantified.len() <= u32::MAX,
            subs@ == entries_map(renaming_entries(quantified@.take(i as int), first)),
        decreases quantified.len() - i,
    {
        let v = fresh_type_var(supply);
        subs.insert(quantified[i], v);
        assert(renaming_entries(quantified@.take(i as int + 1), first).drop_last() =~= renaming_entries(
            quantified@.take(i as int),
            first,
        ));
        i = i + 1;
    }
    assert(quantified@.take(quantified.len() as int) =~= quantified@);
    let r = t.substitute(&subs);
    proof {
        if forall|a: u32| quantified@.contains(a) ==> a < first {
            assert forall|x: u32| free(r).contains(x) implies !quantified@.to_set().contains(x) by {
                lemma_instantiate_free(quantified@, *t, first, x);
            }
        }
    }
    r
}

} // verus!
