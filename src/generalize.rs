use vstd::prelude::*;

use crate::types::{
    contains_id, free, free_list, lemma_free_list, lemma_push_contains, scheme_free, FreeVars,
    Scheme, SchemeView, Type,
};

verus! {

/// The elements of `xs` that are not in `mono`, in order.
pub open spec fn keep_outside(xs: Seq<u32>, mono: Set<u32>) -> Seq<u32>
    decreases xs.len(),
{
    if xs.len() == 0 {
        Seq::empty()
    } else {
        let r = keep_outside(xs.drop_last(), mono);
        if mono.contains(xs.last()) {
            r
        } else {
            r.push(xs.last())
        }
    }
}

/// The ids that generalizing `t` against the monomorphic variables `mono` quantifies.
pub open spec fn generalized_ids(t: Type, mono: Set<u32>) -> Seq<u32> {
    keep_outside(free_list(t), mono)
}

pub proof fn lemma_keep_outside(xs: Seq<u32>, mono: Set<u32>)
    ensures
        forall|x: u32| #[trigger]
            keep_outside(xs, mono).contains(x) <==> xs.contains(x) && !mono.contains(x),
        xs.no_duplicates() ==> keep_outside(xs, mono).no_duplicates(),
    decreases xs.len(),
{
    if xs.len() > 0 {
        let p = xs.drop_last();
        let r = keep_outside(p, mono);
        lemma_keep_outside(p, mono);
        assert(p.push(xs.last()) =~= xs);
        lemma_push_contains(p, xs.last());
        if !mono.contains(xs.last()) {
            lemma_push_contains(r, xs.last());
            if xs.no_duplicates() {
                assert(p.no_duplicates());
                assert(!p.contains(xs.last())) by {
                    if p.contains(xs.last()) {
                        let k = choose|k: int| 0 <= k < p.len() && p[k] == xs.last();
                        assert(xs[k] == xs[xs.len() - 1]);
                    }
                }
                assert(!r.contains(xs.last()));
            }
        }
    }
}

/// Makes `t` into a type scheme that quantifies the variables free in `t` but not in `env`,
/// in order of first occurrence in `t`.
pub fn generalize<M: FreeVars>(env: &M, t: &Type) -> (r: Scheme)
    ensures
        r.body == *t,
        r.quantified@ == generalized_ids(*t, env.free_set()),
        r.quantified@.to_set() == free(*t).difference(env.free_set()),
        r.quantified@.to_set().disjoint(env.free_set()),
        r.quantified@.no_duplicates(),
{
    let mono = env.free_vars();
    let mut vars: Vec<u32> = Vec::new();
    t.collect_free(&mut vars);
    proof {
        lemma_free_list(*t);
    }
    let mut acc: Vec<u32> = Vec::new();
    let mut i: usize = 0;
    while i < vars.len()
        invariant
            0 <= i <= vars.len(),
            vars@ == free_list(*t),
            mono@.to_set() == env.free_set(),
            acc@ == keep_outside(vars@.take(i as int), env.free_set()),
        decreases vars.len() - i,
    {
        assert(vars@.take(i as int + 1).drop_last() =~= vars@.take(i as int));
        if !contains_id(&mono, vars[i]) {
            acc.push(vars[i]);
        }
        i = i + 1;
    }
    proof {
        assert(vars@.take(vars@.len() as int) =~= vars@);
        lemma_keep_outside(vars@, env.free_set());
        assert(acc@.to_set() =~= free(*t).difference(env.free_set()));
    }
    Scheme { quantified: acc, body: t.clone() }
}

/// Generalizing `t` against the monomorphic variables `mono` quantifies exactly the variables
/// of `t` outside `mono`; the free variables of the scheme are the variables of `t` in `mono`.
pub proof fn lemma_generalize_free(t: Type, mono: Set<u32>)
    ensures
        generalized_ids(t, mono).to_set() == free(t).difference(mono),
        scheme_free(SchemeView { quantified: generalized_ids(t, mono), body: t }) == free(t).intersect(
            mono,
        ),
{
    lemma_free_list(t);
    lemma_keep_outside(free_list(t), mono);
    assert forall|x: u32| free_list(t).contains(x) <==> free(t).contains(x) by {
        assert(free_list(t).to_set().contains(x) <==> free_list(t).contains(x));
    }
    assert(generalized_ids(t, mono).to_set() =~= free(t).difference(mono));
    assert(scheme_free(SchemeView { quantified: generalized_ids(t, mono), body: t }) =~= free(
        t,
    ).intersect(mono));
}

} // verus!
