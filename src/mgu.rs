use vstd::prelude::*;

use crate::error::InferError;
use crate::subst::{
    apply, compose, compose_spec, lemma_apply_agree, lemma_apply_unbound, lemma_free_apply,
    Substitution,
};
use crate::types::{free, Type};

verus! {

/// The unifier that `mgu` computes, or the pair of types on which it fails. The two halves of
/// function types are unified independently and the results composed.
pub open spec fn mgu_spec(t1: Type, t2: Type) -> Result<Map<u32, Type>, (Type, Type)>
    decreases t1,
{
    match t1 {
        Type::F(a1, b1) => match t2 {
            Type::F(a2, b2) => match mgu_spec(*a1, *a2) {
                Ok(s1) => match mgu_spec(*b1, *b2) {
                    Ok(s2) => Ok(compose_spec(s1, s2)),
                    Err(e) => Err(e),
                },
                Err(e) => Err(e),
            },
            Type::Unknown(j) => Ok(map![j => t1]),
            _ => Err((t1, t2)),
        },
        Type::Unknown(i) => match t2 {
            Type::Unknown(j) => if i == j {
                Ok(Map::empty())
            } else {
                Ok(map![i => t2])
            },
            _ => Ok(map![i => t2]),
        },
        Type::Int => match t2 {
            Type::Int => Ok(Map::empty()),
            Type::Unknown(j) => Ok(map![j => t1]),
            _ => Err((t1, t2)),
        },
        Type::Str => match t2 {
            Type::Str => Ok(Map::empty()),
            Type::Unknown(j) => Ok(map![j => t1]),
            _ => Err((t1, t2)),
        },
        Type::Nothing => match t2 {
            Type::Nothing => Ok(Map::empty()),
            Type::Unknown(j) => Ok(map![j => t1]),
            _ => Err((t1, t2)),
        },
    }
}

/// Finds the unifier of `t1` and `t2` that `mgu_spec` describes.
///
/// No occurs check is made: a variable is bound to a type even where that type contains it,
/// so `Unknown(0)` and `F(Unknown(0), Int)` unify to `{0 ↦ F(Unknown(0), Int)}`, which does not
/// make them equal. Such an input stands for an infinite type, which `Type` cannot hold; the
/// lemmas below state when the result is a unifier (`lemma_mgu_unifies`).
pub fn mgu(t1: &Type, t2: &Type) -> (r: Result<Substitution, InferError>)
    ensures
        match mgu_spec(*t1, *t2) {
            Ok(s) => r matches Ok(sub) && sub@ == s,
            Err((a, b)) => r matches Err(e) && e == InferError::CannotUnify(a, b),
        },
    decreases t1,
{
    match (t1, t2) {
        (Type::Int, Type::Int) | (Type::Str, Type::Str) | (Type::Nothing, Type::Nothing) => Ok(
            Substitution::new(),
        ),
        (Type::F(a1, b1), Type::F(a2, b2)) => {
            let s1 = mgu(a1, a2)?;
            let s2 = mgu(b1, b2)?;
            Ok(compose(s1, s2))
        },
        (Type::Unknown(i), Type::Unknown(j)) => {
            let mut s = Substitution::new();
            if *i != *j {
                s.insert(*i, Type::Unknown(*j));
            }
            Ok(s)
        },
        (Type::Unknown(i), known) => {
            let mut s = Substitution::new();
            s.insert(*i, known.clone());
            Ok(s)
        },
        (known, Type::Unknown(j)) => {
            let mut s = Substitution::new();
            s.insert(*j, known.clone());
            Ok(s)
        },
        _ => Err(InferError::CannotUnify(t1.clone(), t2.clone())),
    }
}

/// The variables of two types.
pub open spec fn vars2(t1: Type, t2: Type) -> Set<u32> {
    free(t1).union(free(t2))
}

/// Whether no variable is bound to a type in which it occurs, and the halves of every pair of
/// function types that `mgu` unifies independently share no variable.
pub open spec fn unifies_independently(t1: Type, t2: Type) -> bool
    decreases t1,
{
    match t1 {
        Type::F(a1, b1) => match t2 {
            Type::F(a2, b2) => {
                &&& vars2(*a1, *a2).disjoint(vars2(*b1, *b2))
                &&& unifies_independently(*a1, *a2)
                &&& unifies_independently(*b1, *b2)
            },
            Type::Unknown(j) => !free(t1).contains(j),
            _ => true,
        },
        Type::Unknown(i) => t2 == t1 || !free(t2).contains(i),
        _ => match t2 {
            Type::Unknown(j) => !free(t1).contains(j),
            _ => true,
        },
    }
}

/// `mgu` binds only variables of the two types, to types made of their variables.
pub proof fn lemma_mgu_vars(t1: Type, t2: Type)
    requires
        mgu_spec(t1, t2) is Ok,
    ensures
        forall|k: u32| #[trigger]
            mgu_spec(t1, t2)->Ok_0.contains_key(k) ==> vars2(t1, t2).contains(k) && free(
                mgu_spec(t1, t2)->Ok_0[k],
            ).subset_of(vars2(t1, t2)),
    decreases t1,
{
    let s = mgu_spec(t1, t2)->Ok_0;
    if let (Type::F(a1, b1), Type::F(a2, b2)) = (t1, t2) {
        lemma_mgu_vars(*a1, *a2);
        lemma_mgu_vars(*b1, *b2);
        let s1 = mgu_spec(*a1, *a2)->Ok_0;
        let s2 = mgu_spec(*b1, *b2)->Ok_0;
        assert forall|k: u32| #[trigger] s.contains_key(k) implies vars2(t1, t2).contains(k) && free(
            s[k],
        ).subset_of(vars2(t1, t2)) by {
            if s2.contains_key(k) {
                assert forall|x: u32| free(s[k]).contains(x) implies vars2(t1, t2).contains(x) by {
                    lemma_free_apply(s1, s2[k], x);
                    if !free(s2[k]).contains(x) {
                        let kk = choose|kk: u32|
                            free(s2[k]).contains(kk) && s1.contains_key(kk) && #[trigger] free(s1[kk]).contains(x);
                        assert(s1.contains_key(kk));
                    }
                }
            }
        }
    } else {
        assert forall|k: u32| #[trigger] s.contains_key(k) implies vars2(t1, t2).contains(k) && free(
            s[k],
        ).subset_of(vars2(t1, t2)) by {
            match t1 {
                Type::Unknown(i) => {
                    assert(free(t1).contains(i));
                },
                _ => {
                    if let Type::Unknown(j) = t2 {
                        assert(free(t2).contains(j));
                    }
                },
            }
        }
    }
}

/// When the halves of the function types share no variable and no variable is bound to a
/// type in which it occurs, `mgu` makes the two types equal.
pub proof fn lemma_mgu_unifies(t1: Type, t2: Type)
    requires
        mgu_spec(t1, t2) is Ok,
        unifies_independently(t1, t2),
    ensures
        apply(mgu_spec(t1, t2)->Ok_0, t1) == apply(mgu_spec(t1, t2)->Ok_0, t2),
    decreases t1,
{
    let s = mgu_spec(t1, t2)->Ok_0;
    match t1 {
        Type::F(a1, b1) => match t2 {
            Type::F(a2, b2) => {
                lemma_mgu_unifies(*a1, *a2);
                lemma_mgu_unifies(*b1, *b2);
                lemma_mgu_vars(*a1, *a2);
                lemma_mgu_vars(*b1, *b2);
                let s1 = mgu_spec(*a1, *a2)->Ok_0;
                let s2 = mgu_spec(*b1, *b2)->Ok_0;
                assert forall|k: u32| #[trigger] s2.contains_key(k) implies apply(s1, s2[k]) == s2[k] by {
                    assert forall|x: u32| free(s2[k]).contains(x) implies !s1.contains_key(x) by {
                        if s1.contains_key(x) {
                            assert(vars2(*a1, *a2).contains(x));
                            assert(vars2(*b1, *b2).contains(x));
                        }
                    }
                    lemma_apply_unbound(s1, s2[k]);
                }
                assert forall|k: u32| s2.contains_key(k) implies !s1.contains_key(k) by {
                    if s1.contains_key(k) {
                        assert(vars2(*a1, *a2).contains(k));
                    }
                }
                assert forall|k: u32| vars2(*a1, *a2).contains(k) implies !s2.contains_key(k) by {
                    if s2.contains_key(k) {
                        assert(vars2(*b1, *b2).contains(k));
                    }
                }
                lemma_apply_agree(s, s1, *a1);
                lemma_apply_agree(s, s1, *a2);
                lemma_apply_agree(s, s2, *b1);
                lemma_apply_agree(s, s2, *b2);
            },
            Type::Unknown(j) => {
                lemma_apply_unbound(s, t1);
            },
            _ => {},
        },
        Type::Unknown(i) => {
            if t2 != t1 {
                lemma_apply_unbound(s, t2);
            }
        },
        _ => match t2 {
            Type::Unknown(j) => {
                lemma_apply_unbound(s, t1);
            },
            _ => {},
        },
    }
}

/// Under the same conditions, no value of the unifier mentions an id that it binds.
pub proof fn lemma_mgu_idempotent(t1: Type, t2: Type)
    requires
        mgu_spec(t1, t2) is Ok,
        unifies_independently(t1, t2),
    ensures
        forall|k: u32| #[trigger]
            mgu_spec(t1, t2)->Ok_0.contains_key(k) ==> free(mgu_spec(t1, t2)->Ok_0[k]).disjoint(
                mgu_spec(t1, t2)->Ok_0.dom(),
            ),
    decreases t1,
{
    let s = mgu_spec(t1, t2)->Ok_0;
    match t1 {
        Type::F(a1, b1) => match t2 {
            Type::F(a2, b2) => {
                lemma_mgu_idempotent(*a1, *a2);
                lemma_mgu_idempotent(*b1, *b2);
                lemma_mgu_vars(*a1, *a2);
                lemma_mgu_vars(*b1, *b2);
                let s1 = mgu_spec(*a1, *a2)->Ok_0;
                let s2 = mgu_spec(*b1, *b2)->Ok_0;
                assert forall|k: u32| #[trigger] s.contains_key(k) implies free(s[k]).disjoint(s.dom()) by {
                    if s1.contains_key(k) {
                        assert forall|x: u32| free(s[k]).contains(x) implies !s.dom().contains(x) by {
                            assert(vars2(*a1, *a2).contains(x));
                            if s2.contains_key(x) {
                                assert(vars2(*b1, *b2).contains(x));
                            }
                        }
                    } else {
                        assert forall|x: u32| free(s2[k]).contains(x) implies !s1.contains_key(x) by {
                            if s1.contains_key(x) {
                                assert(vars2(*a1, *a2).contains(x));
                                assert(vars2(*b1, *b2).contains(x));
                            }
                        }
                        lemma_apply_unbound(s1, s2[k]);
                        assert forall|x: u32| free(s[k]).contains(x) implies !s.dom().contains(x) by {
                            assert(vars2(*b1, *b2).contains(x));
                            if s1.contains_key(x) {
                                assert(vars2(*a1, *a2).contains(x));
                            }
                        }
                    }
                }
            },
            _ => {},
        },
        _ => {},
    }
}

} // verus!
