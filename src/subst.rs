use vstd::prelude::*;

use crate::types::{free, free_seq, Scheme, SchemeView, Type};

verus! {

/// `t` with every `Unknown(id)` whose id is a key of `s` replaced by `s[id]`, in one pass.
pub open spec fn apply(s: Map<u32, Type>, t: Type) -> Type
    decreases t,
{
    match t {
        Type::F(a, b) => Type::F(Box::new(apply(s, *a)), Box::new(apply(s, *b))),
        Type::Unknown(id) => if s.contains_key(id) {
            s[id]
        } else {
            t
        },
        _ => t,
    }
}

/// The substitution that applies `s2`, then `s1`: each key of `s2` maps to `s2`'s value with
/// `s1` applied, and each other key of `s1` to `s1`'s value.
pub open spec fn compose_spec(s1: Map<u32, Type>, s2: Map<u32, Type>) -> Map<u32, Type> {
    Map::new(
        |k: u32| s1.contains_key(k) || s2.contains_key(k),
        |k: u32|
            if s2.contains_key(k) {
                apply(s1, s2[k])
            } else {
                s1[k]
            },
    )
}

/// The map that a list of bindings denotes: a later binding of a key wins.
pub open spec fn entries_map(e: Seq<(u32, Type)>) -> Map<u32, Type>
    decreases e.len(),
{
    if e.len() == 0 {
        Map::empty()
    } else {
        entries_map(e.drop_last()).insert(e.last().0, e.last().1)
    }
}

pub open spec fn apply_seq(s: Map<u32, Type>, ts: Seq<Type>) -> Seq<Type> {
    ts.map_values(|t: Type| apply(s, t))
}

pub open spec fn apply_scheme(s: Map<u32, Type>, sc: SchemeView) -> SchemeView {
    SchemeView { quantified: sc.quantified, body: apply(s, sc.body) }
}

/// A finite map from type-variable ids to types.
///
/// It is kept as a list of bindings in which a later binding of an id replaces an earlier
/// one, rather than as a `HashMap`: composition walks every binding, and the order in which a
/// `HashMap` is walked is neither specified nor the same from one process to the next, while
/// the solver's choices, and so the fresh ids that it draws, must be reproducible.
#[derive(Debug)]
pub struct Substitution {
    entries: Vec<(u32, Type)>,
}

impl View for Substitution {
    type V = Map<u32, Type>;

    closed spec fn view(&self) -> Map<u32, Type> {
        entries_map(self.entries@)
    }
}

impl Substitution {
    /// The empty substitution.
    pub fn new() -> (r: Substitution)
        ensures
            r@ == Map::<u32, Type>::empty(),
    {
        Substitution { entries: Vec::new() }
    }

    /// Binds `id` to `t`, replacing any earlier binding of `id`.
    pub fn insert(&mut self, id: u32, t: Type)
        ensures
            final(self)@ == old(self)@.insert(id, t),
    {
        self.entries.push((id, t));
        assert(self.entries@.drop_last() =~= old(self).entries@);
    }

    /// The type bound to `id`, if any.
    pub fn get(&self, id: u32) -> (r: Option<&Type>)
        ensures
            r is Some <==> self@.contains_key(id),
            r matches Some(t) ==> *t == self@[id],
    {
        let mut i: usize = self.entries.len();
        proof {
            lemma_entries_append(self.entries@, Seq::empty());
            assert(self.entries@.take(i as int) =~= self.entries@);
            assert(self.entries@.skip(i as int) =~= Seq::<(u32, Type)>::empty());
            assert(self.entries@ + Seq::<(u32, Type)>::empty() =~= self.entries@);
        }
        while i > 0
            invariant
                0 <= i <= self.entries.len(),
                entries_map(self.entries@) == entries_map(self.entries@.take(i as int)).union_prefer_right(
                    entries_map(self.entries@.skip(i as int))),
                forall|k: int| i <= k < self.entries.len() ==> self.entries@[k].0 != id,
            decreases i,
        {
            let ghost e = self.entries@;
            proof {
                lemma_entries_skip_step(e, i as int);
                assert(e.take(i as int - 1) =~= e.take(i as int).drop_last());
            }
            if self.entries[i - 1].0 == id {
                proof {
                    lemma_entries_no_key(e.skip(i as int), id);
                }
                return Some(&self.entries[i - 1].1);
            }
            i = i - 1;
            proof {
                lemma_entries_no_key(e.skip(i as int + 1), id);
                assert(entries_map(e) =~= entries_map(e.take(i as int)).union_prefer_right(
                    entries_map(e.skip(i as int))));
            }
        }
        proof {
            assert(self.entries@.take(0) =~= Seq::<(u32, Type)>::empty());
            lemma_entries_no_key(self.entries@.skip(0), id);
        }
        None
    }

    /// Whether no id is bound.
    pub fn is_empty(&self) -> (r: bool)
        ensures
            r == (self@ == Map::<u32, Type>::empty()),
    {
        if self.entries.len() == 0 {
            assert(self@ =~= Map::<u32, Type>::empty());
            true
        } else {
            assert(self@.contains_key(self.entries@.last().0));
            false
        }
    }
}

impl Type {
    /// `self` with `subs` applied.
    pub fn substitute(&self, subs: &Substitution) -> (r: Type)
        ensures
            r == apply(subs@, *self),
        decreases self,
    {
        match self {
            Type::F(a, b) => Type::F(Box::new(a.substitute(subs)), Box::new(b.substitute(subs))),
            Type::Unknown(id) => match subs.get(*id) {
                Some(t) => t.clone(),
                None => Type::Unknown(*id),
            },
            Type::Int => Type::Int,
            Type::Str => Type::Str,
            Type::Nothing => Type::Nothing,
        }
    }
}

/// A substitution that first applies `s2`, then `s1`: every value of `s2` gets `s1` applied,
/// and a key that both bind takes `s2`'s value so mapped.
pub fn compose(s1: Substitution, s2: Substitution) -> (r: Substitution)
    ensures
        r@ == compose_spec(s1@, s2@),
{
    let ghost v1 = s1@;
    let mut entries: Vec<(u32, Type)> = Vec::new();
    let mut i: usize = 0;
    while i < s2.entries.len()
        invariant
            0 <= i <= s2.entries.len(),
            v1 == s1@,
            entries_map(entries@) == Map::new(
                |k: u32| entries_map(s2.entries@.take(i as int)).contains_key(k),
                |k: u32| apply(s1@, entries_map(s2.entries@.take(i as int))[k]),
            ),
        decreases s2.entries.len() - i,
    {
        let ghost before = entries@;
        let v = s2.entries[i].1.substitute(&s1);
        entries.push((s2.entries[i].0, v));
        proof {
            assert(entries@.drop_last() =~= before);
            assert(s2.entries@.take(i as int + 1).drop_last() =~= s2.entries@.take(i as int));
            assert(entries_map(entries@) =~= Map::new(
                |k: u32| entries_map(s2.entries@.take(i as int + 1)).contains_key(k),
                |k: u32| apply(s1@, entries_map(s2.entries@.take(i as int + 1))[k]),
            ));
        }
        i = i + 1;
    }
    let ghost mapped = entries@;
    let ghost e1 = s1.entries@;
    let mut s1 = s1;
    s1.entries.append(&mut entries);
    proof {
        assert(s2.entries@.take(s2.entries@.len() as int) =~= s2.entries@);
        lemma_entries_append(e1, mapped);
        assert(entries_map(s1.entries@) =~= compose_spec(v1, s2@));
    }
    s1
}

/// Values into which a substitution can be applied.
pub trait ApplySubst: Sized {
    /// Whether `after` is `self` with `s` applied.
    spec fn substituted_to(&self, s: Map<u32, Type>, after: &Self) -> bool;

    /// Applies `subs` to every type in `self`.
    fn apply_subst(&mut self, subs: &Substitution)
        ensures
            old(self).substituted_to(subs@, final(self)),
    ;
}

impl ApplySubst for Type {
    open spec fn substituted_to(&self, s: Map<u32, Type>, after: &Self) -> bool {
        *after == apply(s, *self)
    }

    fn apply_subst(&mut self, subs: &Substitution) {
        *self = self.substitute(subs);
    }
}

impl ApplySubst for Vec<Type> {
    open spec fn substituted_to(&self, s: Map<u32, Type>, after: &Self) -> bool {
        after@ == apply_seq(s, self@)
    }

    fn apply_subst(&mut self, subs: &Substitution) {
        let mut out: Vec<Type> = Vec::new();
        let mut i: usize = 0;
        while i < self.len()
            invariant
                0 <= i <= self.len(),
                out@ == apply_seq(subs@, self@.take(i as int)),
            decreases self.len() - i,
        {
            out.push(self[i].substitute(subs));
            assert(out@ =~= apply_seq(subs@, self@.take(i as int + 1)));
            i = i + 1;
        }
        assert(self@.take(self.len() as int) =~= self@);
        *self = out;
    }
}

impl ApplySubst for Scheme {
    open spec fn substituted_to(&self, s: Map<u32, Type>, after: &Self) -> bool {
        after@ == apply_scheme(s, self@)
    }

    fn apply_subst(&mut self, subs: &Substitution) {
        self.body = self.body.substitute(subs);
    }
}

/// Applying a substitution leaves a type without variables unchanged.
pub proof fn lemma_apply_ground(s: Map<u32, Type>, t: Type)
    requires
        free(t) =~= Set::empty(),
    ensures
        apply(s, t) == t,
    decreases t,
{
    match t {
        Type::F(a, b) => {
            assert(free(*a) =~= Set::empty());
            assert(free(*b) =~= Set::empty());
            lemma_apply_ground(s, *a);
            lemma_apply_ground(s, *b);
        },
        Type::Unknown(id) => {
            assert(free(t).contains(id));
        },
        _ => {},
    }
}

/// Applying `compose(a, b)` is applying `b`, then `a`.
pub proof fn lemma_compose_apply(a: Map<u32, Type>, b: Map<u32, Type>, t: Type)
    ensures
        apply(compose_spec(a, b), t) == apply(a, apply(b, t)),
    decreases t,
{
    match t {
        Type::F(x, y) => {
            lemma_compose_apply(a, b, *x);
            lemma_compose_apply(a, b, *y);
        },
        Type::Unknown(id) => {
            assert(free(t).contains(id));
        },
        _ => {},
    }
}

/// The empty substitution changes nothing.
pub proof fn lemma_apply_empty(t: Type)
    ensures
        apply(Map::empty(), t) == t,
    decreases t,
{
    if let Type::F(a, b) = t {
        lemma_apply_empty(*a);
        lemma_apply_empty(*b);
    }
}

/// A substitution that binds no variable of `t` leaves `t` unchanged.
pub proof fn lemma_apply_unbound(s: Map<u32, Type>, t: Type)
    requires
        forall|k: u32| free(t).contains(k) ==> !s.contains_key(k),
    ensures
        apply(s, t) == t,
    decreases t,
{
    match t {
        Type::F(a, b) => {
            lemma_apply_unbound(s, *a);
            lemma_apply_unbound(s, *b);
        },
        Type::Unknown(id) => {
            assert(free(t).contains(id));
        },
        _ => {},
    }
}

/// Two substitutions that agree on the variables of `t` apply alike to `t`.
pub proof fn lemma_apply_agree(s1: Map<u32, Type>, s2: Map<u32, Type>, t: Type)
    requires
        forall|k: u32| #[trigger]
            free(t).contains(k) ==> (s1.contains_key(k) <==> s2.contains_key(k)) && (s1.contains_key(k)
                ==> s1[k] == s2[k]),
    ensures
        apply(s1, t) == apply(s2, t),
    decreases t,
{
    match t {
        Type::F(a, b) => {
            assert forall|k: u32| #[trigger] free(*a).contains(k) implies (s1.contains_key(k) <==> s2.contains_key(k)) && (
                s1.contains_key(k) ==> s1[k] == s2[k]) by {
                assert(free(t).contains(k));
            }
            assert forall|k: u32| #[trigger] free(*b).contains(k) implies (s1.contains_key(k) <==> s2.contains_key(k)) && (
                s1.contains_key(k) ==> s1[k] == s2[k]) by {
                assert(free(t).contains(k));
            }
            lemma_apply_agree(s1, s2, *a);
            lemma_apply_agree(s1, s2, *b);
        },
        Type::Unknown(id) => {
            assert(free(t).contains(id));
        },
        _ => {},
    }
}

/// A substitution none of whose values changes under it is idempotent.
pub proof fn lemma_apply_idempotent(s: Map<u32, Type>, t: Type)
    requires
        forall|k: u32| s.contains_key(k) ==> apply(s, #[trigger] s[k]) == s[k],
    ensures
        apply(s, apply(s, t)) == apply(s, t),
    decreases t,
{
    match t {
        Type::F(x, y) => {
            lemma_apply_idempotent(s, *x);
            lemma_apply_idempotent(s, *y);
        },
        _ => {},
    }
}

/// A variable of `apply(s, t)` is a variable of `t` that `s` leaves alone, or comes from the
/// value that `s` binds to a variable of `t`.
pub proof fn lemma_free_apply(s: Map<u32, Type>, t: Type, x: u32)
    requires
        free(apply(s, t)).contains(x),
    ensures
        (free(t).contains(x) && !s.contains_key(x)) || exists|k: u32|
            free(t).contains(k) && s.contains_key(k) && #[trigger] free(s[k]).contains(x),
    decreases t,
{
    match t {
        Type::F(a, b) => {
            if free(apply(s, *a)).contains(x) {
                lemma_free_apply(s, *a, x);
            } else {
                lemma_free_apply(s, *b, x);
            }
        },
        Type::Unknown(id) => {
            assert(free(t).contains(id));
        },
        _ => {},
    }
}

/// Every binding of `entries_map(e)` is one of the pairs of `e`, and every key of `e` is bound.
pub proof fn lemma_entries_map_bindings(e: Seq<(u32, Type)>)
    ensures
        forall|k: u32| #[trigger]
            entries_map(e).contains_key(k) ==> exists|j: int|
                0 <= j < e.len() && e[j].0 == k && e[j].1 == entries_map(e)[k],
        forall|j: int| 0 <= j < e.len() ==> #[trigger] entries_map(e).contains_key(e[j].0),
    decreases e.len(),
{
    if e.len() > 0 {
        let p = e.drop_last();
        lemma_entries_map_bindings(p);
        assert forall|k: u32| #[trigger]
            entries_map(e).contains_key(k) implies exists|j: int|
                0 <= j < e.len() && e[j].0 == k && e[j].1 == entries_map(e)[k] by {
            if k == e.last().0 {
                assert(e[e.len() - 1].0 == k);
            } else {
                let j = choose|j: int| 0 <= j < p.len() && p[j].0 == k && p[j].1 == entries_map(p)[k];
                assert(e[j] == p[j]);
            }
        }
        assert forall|j: int| 0 <= j < e.len() implies #[trigger] entries_map(e).contains_key(e[j].0) by {
            if j < p.len() {
                assert(e[j] == p[j]);
                assert(entries_map(p).contains_key(p[j].0));
            }
        }
    }
}

proof fn lemma_entries_no_key(e: Seq<(u32, Type)>, id: u32)
    requires
        forall|k: int| 0 <= k < e.len() ==> e[k].0 != id,
    ensures
        !entries_map(e).contains_key(id),
    decreases e.len(),
{
    if e.len() > 0 {
        lemma_entries_no_key(e.drop_last(), id);
    }
}

proof fn lemma_entries_skip_step(e: Seq<(u32, Type)>, i: int)
    requires
        0 < i <= e.len(),
    ensures
        entries_map(e.take(i)).union_prefer_right(entries_map(e.skip(i)))
            == entries_map(e.take(i - 1)).union_prefer_right(entries_map(e.skip(i - 1))),
{
    lemma_entries_append(e.take(i), e.skip(i));
    lemma_entries_append(e.take(i - 1), e.skip(i - 1));
    assert(e.take(i) + e.skip(i) =~= e);
    assert(e.take(i - 1) + e.skip(i - 1) =~= e);
}

/// The map of a concatenation is the union in which the second part wins.
pub proof fn lemma_entries_append(a: Seq<(u32, Type)>, b: Seq<(u32, Type)>)
    ensures
        entries_map(a + b) == entries_map(a).union_prefer_right(entries_map(b)),
    decreases b.len(),
{
    if b.len() == 0 {
        assert(a + b =~= a);
        assert(entries_map(a).union_prefer_right(entries_map(b)) =~= entries_map(a));
    } else {
        lemma_entries_append(a, b.drop_last());
        assert((a + b).drop_last() =~= a + b.drop_last());
        assert(entries_map(a + b) =~= entries_map(a).union_prefer_right(entries_map(b)));
    }
}

} // verus!
