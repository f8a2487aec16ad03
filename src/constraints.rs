use vstd::prelude::*;

use crate::subst::{apply, apply_scheme, apply_seq, ApplySubst, Substitution};
use crate::types::{
    contains_id, free, free_seq, lemma_free_acc, lemma_push_contains, scheme_free, FreeVars, Scheme, SchemeView, Type,
};

verus! {

/// `instance` must be a specialization of `scheme`.
#[derive(Debug)]
pub struct ExplicitInstance {
    pub instance: Type,
    pub scheme: Scheme,
}

/// `instance` must be a specialization of the scheme that generalizing `to_generalize`
/// against the variables of `monomorphics` gives, once that scheme is known.
#[derive(Debug)]
pub struct ImplicitInstance {
    /// type that must be a specialization of the yet-to-be-determined scheme
    pub instance: Type,
    /// types whose variables stay monomorphic when `to_generalize` is generalized
    pub monomorphics: Vec<Type>,
    /// type that is generalized into the scheme
    pub to_generalize: Type,
}

pub ghost struct ExplicitView {
    pub instance: Type,
    pub scheme: SchemeView,
}

pub ghost struct ImplicitView {
    pub instance: Type,
    pub monomorphics: Seq<Type>,
    pub to_generalize: Type,
}

impl View for ExplicitInstance {
    type V = ExplicitView;

    open spec fn view(&self) -> ExplicitView {
        ExplicitView { instance: self.instance, scheme: self.scheme@ }
    }
}

impl View for ImplicitInstance {
    type V = ImplicitView;

    open spec fn view(&self) -> ImplicitView {
        ImplicitView {
            instance: self.instance,
            monomorphics: self.monomorphics@,
            to_generalize: self.to_generalize,
        }
    }
}

impl Clone for ExplicitInstance {
    fn clone(&self) -> (r: Self)
        ensures
            r@ == self@,
    {
        ExplicitInstance { instance: self.instance.clone(), scheme: self.scheme.clone() }
    }
}

impl Clone for ImplicitInstance {
    fn clone(&self) -> (r: Self)
        ensures
            r@ == self@,
    {
        let monomorphics = self.monomorphics.clone();
        assert(monomorphics@ =~= self.monomorphics@);
        ImplicitInstance {
            instance: self.instance.clone(),
            monomorphics,
            to_generalize: self.to_generalize.clone(),
        }
    }
}

/// The three kinds of constraints, each kept in order of insertion.
pub ghost struct ConstraintsView {
    pub equality: Seq<(Type, Type)>,
    pub explicit: Seq<ExplicitView>,
    pub implicit: Seq<ImplicitView>,
}

/// A constraint set, organized by kind.
#[derive(Debug)]
pub struct Constraints {
    equality: Vec<(Type, Type)>,
    explicit: Vec<ExplicitInstance>,
    implicit: Vec<ImplicitInstance>,
}

impl View for Constraints {
    type V = ConstraintsView;

    closed spec fn view(&self) -> ConstraintsView {
        ConstraintsView {
            equality: self.equality@,
            explicit: self.explicit@.map_values(|e: ExplicitInstance| e@),
            implicit: self.implicit@.map_values(|i: ImplicitInstance| i@),
        }
    }
}

pub open spec fn empty_constraints() -> ConstraintsView {
    ConstraintsView { equality: Seq::empty(), explicit: Seq::empty(), implicit: Seq::empty() }
}

pub open spec fn is_empty_spec(c: ConstraintsView) -> bool {
    c.equality.len() == 0 && c.explicit.len() == 0 && c.implicit.len() == 0
}

/// `s` with `x` added at the end, unless `s` holds it already.
pub open spec fn insert_new<A>(s: Seq<A>, x: A) -> Seq<A> {
    if s.contains(x) {
        s
    } else {
        s.push(x)
    }
}

/// `s` with each element of `xs` added in turn by `insert_new`.
pub open spec fn insert_all_new<A>(s: Seq<A>, xs: Seq<A>) -> Seq<A>
    decreases xs.len(),
{
    if xs.len() == 0 {
        s
    } else {
        insert_new(insert_all_new(s, xs.drop_last()), xs.last())
    }
}

/// Whether `s` holds an explicit-instance constraint that is the same as `e`.
pub open spec fn has_same_explicit(s: Seq<ExplicitView>, e: ExplicitView) -> bool {
    exists|k: int| 0 <= k < s.len() && #[trigger] same_explicit(s[k], e)
}

/// `s` with `e` added at the end, unless `s` holds the same constraint already.
pub open spec fn insert_new_explicit(s: Seq<ExplicitView>, e: ExplicitView) -> Seq<ExplicitView> {
    if has_same_explicit(s, e) {
        s
    } else {
        s.push(e)
    }
}

/// `s` with each element of `xs` added in turn by `insert_new_explicit`.
pub open spec fn insert_all_new_explicit(s: Seq<ExplicitView>, xs: Seq<ExplicitView>) -> Seq<
    ExplicitView,
>
    decreases xs.len(),
{
    if xs.len() == 0 {
        s
    } else {
        insert_new_explicit(insert_all_new_explicit(s, xs.drop_last()), xs.last())
    }
}

/// No two explicit-instance constraints of `s` are the same.
pub open spec fn distinct_explicit(s: Seq<ExplicitView>) -> bool {
    forall|i: int, j: int|
        0 <= i < s.len() && 0 <= j < s.len() && i != j ==> !same_explicit(s[i], s[j])
}

/// Each of the three kinds holds every constraint at most once: they are sets.
pub open spec fn sets_wf(c: ConstraintsView) -> bool {
    &&& c.equality.no_duplicates()
    &&& distinct_explicit(c.explicit)
    &&& c.implicit.no_duplicates()
}

/// The union of two constraint sets: the constraints of `b` that `a` lacks go after those of `a`.
pub open spec fn merge_spec(a: ConstraintsView, b: ConstraintsView) -> ConstraintsView {
    ConstraintsView {
        equality: insert_all_new(a.equality, b.equality),
        explicit: insert_all_new_explicit(a.explicit, b.explicit),
        implicit: insert_all_new(a.implicit, b.implicit),
    }
}

pub proof fn lemma_insert_all_new<A>(s: Seq<A>, xs: Seq<A>)
    ensures
        forall|y: A| #[trigger]
            insert_all_new(s, xs).contains(y) <==> s.contains(y) || xs.contains(y),
        s.no_duplicates() ==> insert_all_new(s, xs).no_duplicates(),
        insert_all_new(s, xs).len() <= s.len() + xs.len(),
    decreases xs.len(),
{
    if xs.len() > 0 {
        let p = xs.drop_last();
        let r = insert_all_new(s, p);
        lemma_insert_all_new(s, p);
        lemma_push_contains(p, xs.last());
        assert(p.push(xs.last()) =~= xs);
        lemma_push_contains(r, xs.last());
    }
}

pub proof fn lemma_insert_all_new_explicit(s: Seq<ExplicitView>, xs: Seq<ExplicitView>)
    ensures
        forall|y: ExplicitView| #[trigger]
            insert_all_new_explicit(s, xs).contains(y) ==> s.contains(y) || xs.contains(y),
        forall|m: int| 0 <= m < xs.len() ==> has_same_explicit(insert_all_new_explicit(s, xs), #[trigger] xs[m]),
        distinct_explicit(s) ==> distinct_explicit(insert_all_new_explicit(s, xs)),
        insert_all_new_explicit(s, xs).len() <= s.len() + xs.len(),
        insert_all_new_explicit(s, xs).len() >= s.len(),
        forall|k: int| 0 <= k < s.len() ==> #[trigger] insert_all_new_explicit(s, xs)[k] == s[k],
    decreases xs.len(),
{
    if xs.len() > 0 {
        let p = xs.drop_last();
        let r = insert_all_new_explicit(s, p);
        let x = xs.last();
        lemma_insert_all_new_explicit(s, p);
        lemma_push_contains(p, x);
        assert(p.push(x) =~= xs);
        lemma_push_contains(r, x);
        let q = insert_all_new_explicit(s, xs);
        assert forall|m: int| 0 <= m < xs.len() implies has_same_explicit(q, #[trigger] xs[m]) by {
            if m < p.len() {
                assert(xs[m] == p[m]);
                let k = choose|k: int| 0 <= k < r.len() && #[trigger] same_explicit(r[k], p[m]);
                assert(q[k] == r[k]);
            } else if !has_same_explicit(r, x) {
                assert(same_explicit(q[r.len() as int], x));
            }
        }
        if distinct_explicit(s) && !has_same_explicit(r, x) {
            assert forall|i: int, j: int|
                0 <= i < q.len() && 0 <= j < q.len() && i != j implies !same_explicit(q[i], q[j]) by {
                if i == r.len() {
                    assert(!same_explicit(r[j], x));
                } else if j == r.len() {
                    assert(!same_explicit(r[i], x));
                }
            }
        }
    }
}

pub open spec fn apply_explicit(s: Map<u32, Type>, e: ExplicitView) -> ExplicitView {
    ExplicitView { instance: apply(s, e.instance), scheme: apply_scheme(s, e.scheme) }
}

pub open spec fn apply_implicit(s: Map<u32, Type>, i: ImplicitView) -> ImplicitView {
    ImplicitView {
        instance: apply(s, i.instance),
        monomorphics: apply_seq(s, i.monomorphics),
        to_generalize: apply(s, i.to_generalize),
    }
}

/// The images under `s` of the equality constraints of `l`, each once.
pub open spec fn apply_equalities(s: Map<u32, Type>, l: Seq<(Type, Type)>) -> Seq<(Type, Type)> {
    l.map_values(|p: (Type, Type)| (apply(s, p.0), apply(s, p.1)))
}

/// `c` with `s` applied to each constraint; constraints whose images coincide become one.
pub open spec fn apply_constraints(s: Map<u32, Type>, c: ConstraintsView) -> ConstraintsView {
    ConstraintsView {
        equality: insert_all_new(Seq::empty(), apply_equalities(s, c.equality)),
        explicit: insert_all_new_explicit(
            Seq::empty(),
            c.explicit.map_values(|e: ExplicitView| apply_explicit(s, e)),
        ),
        implicit: insert_all_new(
            Seq::empty(),
            c.implicit.map_values(|i: ImplicitView| apply_implicit(s, i)),
        ),
    }
}

/// The variables that an equality constraint keeps active.
pub open spec fn eq_active(p: (Type, Type)) -> Set<u32> {
    free(p.0).union(free(p.1))
}

/// The variables that an explicit-instance constraint keeps active.
pub open spec fn explicit_active(e: ExplicitView) -> Set<u32> {
    free(e.instance).union(scheme_free(e.scheme))
}

/// The variables that an implicit-instance constraint keeps active: those of its instance,
/// and those of the type to generalize that the monomorphic context pins.
pub open spec fn implicit_active(i: ImplicitView) -> Set<u32> {
    free(i.instance).union(free_seq(i.monomorphics).intersect(free(i.to_generalize)))
}

/// The active variables of every constraint of `c` but the implicit one at index `skip`.
pub open spec fn active_except(c: ConstraintsView, skip: int) -> Set<u32> {
    Set::new(
        |x: u32|
            (exists|k: int| 0 <= k < c.equality.len() && #[trigger] eq_active(c.equality[k]).contains(x))
                || (exists|k: int|
                0 <= k < c.explicit.len() && #[trigger] explicit_active(c.explicit[k]).contains(x))
                || (exists|k: int|
                0 <= k < c.implicit.len() && k != skip && #[trigger] implicit_active(
                    c.implicit[k],
                ).contains(x)),
    )
}

/// The active variables of a constraint set.
pub open spec fn active_vars_spec(c: ConstraintsView) -> Set<u32> {
    active_except(c, -1)
}

/// Whether the implicit constraint at index `j` may be generalized: no variable of its type
/// to generalize is active in the other constraints.
pub open spec fn eligible(c: ConstraintsView, j: int) -> bool {
    free(c.implicit[j].to_generalize).disjoint(active_except(c, j))
}

/// Whether `j` is the first index of an implicit constraint that may be generalized.
pub open spec fn first_eligible(c: ConstraintsView, j: int) -> bool {
    0 <= j < c.implicit.len() && eligible(c, j) && forall|k: int| 0 <= k < j ==> !eligible(c, k)
}

/// Adds the ids of `ids` that `acc` lacks.
fn add_ids(acc: &mut Vec<u32>, ids: &Vec<u32>)
    ensures
        forall|x: u32| #[trigger]
            final(acc)@.contains(x) <==> old(acc)@.contains(x) || ids@.contains(x),
{
    let mut i: usize = 0;
    while i < ids.len()
        invariant
            0 <= i <= ids.len(),
            forall|x: u32| #[trigger]
                acc@.contains(x) <==> old(acc)@.contains(x) || ids@.take(i as int).contains(x),
        decreases ids.len() - i,
    {
        let ghost prev = acc@;
        let x = ids[i];
        proof {
            assert(ids@.take(i as int + 1) =~= ids@.take(i as int).push(x));
            lemma_push_contains(ids@.take(i as int), x);
            lemma_push_contains(prev, x);
        }
        if !contains_id(acc, x) {
            acc.push(x);
        }
        i = i + 1;
    }
    assert(ids@.take(ids.len() as int) =~= ids@);
}

/// Adds the free variables of `t` that `acc` lacks.
fn add_free(acc: &mut Vec<u32>, t: &Type)
    ensures
        forall|x: u32| #[trigger]
            final(acc)@.contains(x) <==> old(acc)@.contains(x) || free(*t).contains(x),
{
    proof {
        lemma_free_acc(*t, acc@);
    }
    t.collect_free(acc);
}

/// The ids that are in both `a` and `b`.
fn common_ids(a: &Vec<u32>, b: &Vec<u32>) -> (r: Vec<u32>)
    ensures
        forall|x: u32| #[trigger] r@.contains(x) <==> a@.contains(x) && b@.contains(x),
{
    let mut r: Vec<u32> = Vec::new();
    let mut i: usize = 0;
    while i < a.len()
        invariant
            0 <= i <= a.len(),
            forall|x: u32| #[trigger]
                r@.contains(x) <==> a@.take(i as int).contains(x) && b@.contains(x),
        decreases a.len() - i,
    {
        let ghost prev = r@;
        let x = a[i];
        proof {
            assert(a@.take(i as int + 1) =~= a@.take(i as int).push(x));
            lemma_push_contains(a@.take(i as int), x);
            lemma_push_contains(prev, x);
        }
        if contains_id(b, x) {
            r.push(x);
        }
        i = i + 1;
    }
    assert(a@.take(a.len() as int) =~= a@);
    r
}

pub open spec fn skip_index(skip: Option<usize>) -> int {
    match skip {
        Some(j) => j as int,
        None => -1,
    }
}

impl Constraints {
    /// The active variables of every constraint but the implicit one at `skip`.
    fn active_vars_except(&self, skip: Option<usize>) -> (r: Vec<u32>)
        ensures
            forall|x: u32| #[trigger]
                r@.contains(x) <==> active_except(self@, skip_index(skip)).contains(x),
    {
        let ghost c = self@;
        let mut acc: Vec<u32> = Vec::new();
        let mut i: usize = 0;
        while i < self.equality.len()
            invariant
                c == self@,
                0 <= i <= self.equality.len(),
                forall|x: u32| #[trigger]
                    acc@.contains(x) <==> exists|k: int|
                        0 <= k < i && #[trigger] eq_active(c.equality[k]).contains(x),
            decreases self.equality.len() - i,
        {
            add_free(&mut acc, &self.equality[i].0);
            add_free(&mut acc, &self.equality[i].1);
            assert forall|x: u32| #[trigger]
                acc@.contains(x) <==> exists|k: int|
                    0 <= k < i + 1 && #[trigger] eq_active(c.equality[k]).contains(x) by {
                if eq_active(c.equality[i as int]).contains(x) {
                    assert(0 <= i < i + 1);
                }
            }
            i = i + 1;
        }
        let mut i: usize = 0;
        while i < self.explicit.len()
            invariant
                c == self@,
                0 <= i <= self.explicit.len(),
                forall|x: u32| #[trigger]
                    acc@.contains(x) <==> (exists|k: int|
                        0 <= k < c.equality.len() && #[trigger] eq_active(c.equality[k]).contains(x))
                        || (exists|k: int|
                        0 <= k < i && #[trigger] explicit_active(c.explicit[k]).contains(x)),
            decreases self.explicit.len() - i,
        {
            let e = &self.explicit[i];
            assert(c.explicit[i as int] == e@);
            add_free(&mut acc, &e.instance);
            let sf = e.scheme.free_vars();
            add_ids(&mut acc, &sf);
            assert forall|x: u32| #[trigger]
                acc@.contains(x) <==> (exists|k: int|
                    0 <= k < c.equality.len() && #[trigger] eq_active(c.equality[k]).contains(x))
                    || (exists|k: int|
                    0 <= k < i + 1 && #[trigger] explicit_active(c.explicit[k]).contains(x)) by {
                assert(sf@.contains(x) <==> sf@.to_set().contains(x));
                if explicit_active(c.explicit[i as int]).contains(x) {
                    assert(0 <= i < i + 1);
                }
            }
            i = i + 1;
        }
        let mut i: usize = 0;
        while i < self.implicit.len()
            invariant
                c == self@,
                0 <= i <= self.implicit.len(),
                forall|x: u32| #[trigger]
                    acc@.contains(x) <==> (exists|k: int|
                        0 <= k < c.equality.len() && #[trigger] eq_active(c.equality[k]).contains(x))
                        || (exists|k: int|
                        0 <= k < c.explicit.len() && #[trigger] explicit_active(c.explicit[k]).contains(
                            x,
                        )) || (exists|k: int|
                        0 <= k < i && k != skip_index(skip) && #[trigger] implicit_active(
                            c.implicit[k],
                        ).contains(x)),
            decreases self.implicit.len() - i,
        {
            let skipped = match skip {
                Some(j) => j == i,
                None => false,
            };
            if !skipped {
                let im = &self.implicit[i];
                assert(c.implicit[i as int] == im@);
                add_free(&mut acc, &im.instance);
                let mono = im.monomorphics.free_vars();
                let gen = im.to_generalize.free_vars();
                let both = common_ids(&mono, &gen);
                add_ids(&mut acc, &both);
                assert forall|x: u32| #[trigger]
                    acc@.contains(x) <==> (exists|k: int|
                        0 <= k < c.equality.len() && #[trigger] eq_active(c.equality[k]).contains(x))
                        || (exists|k: int|
                        0 <= k < c.explicit.len() && #[trigger] explicit_active(c.explicit[k]).contains(
                            x,
                        )) || (exists|k: int|
                        0 <= k < i + 1 && k != skip_index(skip) && #[trigger] implicit_active(
                            c.implicit[k],
                        ).contains(x)) by {
                    assert(mono@.contains(x) <==> mono@.to_set().contains(x));
                    assert(gen@.contains(x) <==> gen@.to_set().contains(x));
                    if implicit_active(c.implicit[i as int]).contains(x) {
                        assert(0 <= i < i + 1);
                    }
                }
            } else {
                assert forall|x: u32| #[trigger]
                    acc@.contains(x) <==> (exists|k: int|
                        0 <= k < c.equality.len() && #[trigger] eq_active(c.equality[k]).contains(x))
                        || (exists|k: int|
                        0 <= k < c.explicit.len() && #[trigger] explicit_active(c.explicit[k]).contains(
                            x,
                        )) || (exists|k: int|
                        0 <= k < i + 1 && k != skip_index(skip) && #[trigger] implicit_active(
                            c.implicit[k],
                        ).contains(x)) by {
                    if exists|k: int|
                        0 <= k < i + 1 && k != skip_index(skip) && #[trigger] implicit_active(
                            c.implicit[k],
                        ).contains(x) {
                        let k = choose|k: int|
                            0 <= k < i + 1 && k != skip_index(skip) && #[trigger] implicit_active(
                                c.implicit[k],
                            ).contains(x);
                        assert(k < i);
                    }
                }
            }
            i = i + 1;
        }
        acc
    }

    /// The active variables of the constraint set.
    pub fn active_vars(&self) -> (r: Vec<u32>)
        ensures
            r@.to_set() == active_vars_spec(self@),
    {
        let r = self.active_vars_except(None);
        assert(r@.to_set() =~= active_vars_spec(self@));
        r
    }
}

/// Whether two explicit-instance constraints are equal, the quantified ids taken as a set.
pub open spec fn same_explicit(a: ExplicitView, b: ExplicitView) -> bool {
    &&& a.instance == b.instance
    &&& a.scheme.body == b.scheme.body
    &&& a.scheme.quantified.to_set() == b.scheme.quantified.to_set()
}

/// Whether every id of `a` is in `b`.
fn ids_within(a: &Vec<u32>, b: &Vec<u32>) -> (r: bool)
    ensures
        r == (forall|x: u32| a@.contains(x) ==> b@.contains(x)),
{
    let mut i: usize = 0;
    while i < a.len()
        invariant
            0 <= i <= a.len(),
            forall|k: int| 0 <= k < i ==> b@.contains(#[trigger] a@[k]),
        decreases a.len() - i,
    {
        if !contains_id(b, a[i]) {
            assert(a@.contains(a@[i as int]));
            return false;
        }
        i = i + 1;
    }
    true
}

/// Whether `a` and `b` hold the same types in the same order.
fn same_types(a: &Vec<Type>, b: &Vec<Type>) -> (r: bool)
    ensures
        r == (a@ == b@),
{
    if a.len() != b.len() {
        return false;
    }
    let mut i: usize = 0;
    while i < a.len()
        invariant
            0 <= i <= a.len(),
            a.len() == b.len(),
            forall|k: int| 0 <= k < i ==> a@[k] == b@[k],
        decreases a.len() - i,
    {
        if a[i] != b[i] {
            return false;
        }
        i = i + 1;
    }
    assert(a@ =~= b@);
    true
}

impl ExplicitInstance {
    /// Whether `self` and `other` are the same constraint.
    pub fn same_as(&self, other: &ExplicitInstance) -> (r: bool)
        ensures
            r == same_explicit(self@, other@),
    {
        let r = self.instance == other.instance && self.scheme.body == other.scheme.body && ids_within(
            &self.scheme.quantified,
            &other.scheme.quantified,
        ) && ids_within(&other.scheme.quantified, &self.scheme.quantified);
        proof {
            if ids_within_spec(self.scheme.quantified@, other.scheme.quantified@) && ids_within_spec(
                other.scheme.quantified@,
                self.scheme.quantified@,
            ) {
                assert(self.scheme.quantified@.to_set() =~= other.scheme.quantified@.to_set());
            }
            if self.scheme.quantified@.to_set() == other.scheme.quantified@.to_set() {
                assert forall|x: u32| self.scheme.quantified@.contains(x) implies other.scheme.quantified@.contains(x) by {
                    assert(self.scheme.quantified@.to_set().contains(x));
                }
                assert forall|x: u32| other.scheme.quantified@.contains(x) implies self.scheme.quantified@.contains(x) by {
                    assert(other.scheme.quantified@.to_set().contains(x));
                }
            }
        }
        r
    }
}

pub open spec fn ids_within_spec(a: Seq<u32>, b: Seq<u32>) -> bool {
    forall|x: u32| a.contains(x) ==> b.contains(x)
}

impl ImplicitInstance {
    /// Whether `self` and `other` are the same constraint.
    pub fn same_as(&self, other: &ImplicitInstance) -> (r: bool)
        ensures
            r == (self@ == other@),
    {
        self.instance == other.instance && self.to_generalize == other.to_generalize && same_types(
            &self.monomorphics,
            &other.monomorphics,
        )
    }
}

impl Constraints {
    /// Each kind holds every constraint at most once.
    #[verifier::type_invariant]
    pub open spec fn inv(&self) -> bool {
        sets_wf(self@)
    }

    /// An empty constraint set.
    pub fn new() -> (r: Constraints)
        ensures
            r@ == empty_constraints(),
    {
        let r = Constraints { equality: Vec::new(), explicit: Vec::new(), implicit: Vec::new() };
        assert(r@.explicit =~= Seq::<ExplicitView>::empty());
        assert(r@.implicit =~= Seq::<ImplicitView>::empty());
        r
    }

    /// Returns `true` if the constraint set contains no elements.
    pub fn is_empty(&self) -> (r: bool)
        ensures
            r == is_empty_spec(self@),
    {
        self.equality.len() == 0 && self.explicit.len() == 0 && self.implicit.len() == 0
    }

    /// The index of the equality constraint equal to `value`, if any.
    fn find_eq(&self, value: &(Type, Type)) -> (r: Option<usize>)
        ensures
            r matches Some(k) ==> k < self@.equality.len() && self@.equality[k as int] == *value,
            r is None ==> !self@.equality.contains(*value),
    {
        let mut k: usize = 0;
        while k < self.equality.len()
            invariant
                0 <= k <= self.equality.len(),
                forall|m: int| 0 <= m < k ==> self@.equality[m] != *value,
            decreases self.equality.len() - k,
        {
            if self.equality[k].0 == value.0 && self.equality[k].1 == value.1 {
                return Some(k);
            }
            k = k + 1;
        }
        None
    }

    /// The index of the explicit-instance constraint that is the same as `value`, if any.
    fn find_exp(&self, value: &ExplicitInstance) -> (r: Option<usize>)
        ensures
            r matches Some(k) ==> k < self@.explicit.len() && same_explicit(self@.explicit[k as int], value@),
            r is None ==> !has_same_explicit(self@.explicit, value@),
    {
        let mut k: usize = 0;
        while k < self.explicit.len()
            invariant
                0 <= k <= self.explicit.len(),
                forall|m: int| 0 <= m < k ==> !same_explicit(#[trigger] self@.explicit[m], value@),
            decreases self.explicit.len() - k,
        {
            assert(self@.explicit[k as int] == self.explicit@[k as int]@);
            if self.explicit[k].same_as(value) {
                return Some(k);
            }
            k = k + 1;
        }
        None
    }

    /// The index of the implicit-instance constraint equal to `value`, if any.
    fn find_imp(&self, value: &ImplicitInstance) -> (r: Option<usize>)
        ensures
            r matches Some(k) ==> k < self@.implicit.len() && self@.implicit[k as int] == value@,
            r is None ==> !self@.implicit.contains(value@),
    {
        let mut k: usize = 0;
        while k < self.implicit.len()
            invariant
                0 <= k <= self.implicit.len(),
                forall|m: int| 0 <= m < k ==> self@.implicit[m] != value@,
            decreases self.implicit.len() - k,
        {
            assert(self@.implicit[k as int] == self.implicit@[k as int]@);
            if self.implicit[k].same_as(value) {
                return Some(k);
            }
            k = k + 1;
        }
        None
    }

    /// Adds an equality constraint, unless it is present already.
    pub fn insert_eq(&mut self, left: Type, right: Type)
        ensures
            final(self)@ == (ConstraintsView {
                equality: insert_new(old(self)@.equality, (left, right)),
                ..old(self)@
            }),
    {
        proof {
            use_type_invariant(&*self);
        }
        let p = (left, right);
        if self.find_eq(&p).is_none() {
            proof {
                lemma_push_no_duplicates(self@.equality, p);
            }
            let mut list: Vec<(Type, Type)> = Vec::new();
            std::mem::swap(&mut list, &mut self.equality);
            list.push(p);
            self.equality = list;
        }
    }

    /// Adds an explicit-instance constraint, that `instance` must match `scheme`, unless the
    /// same one is present already.
    pub fn insert_explicit(&mut self, instance: Type, scheme: Scheme)
        ensures
            final(self)@ == (ConstraintsView {
                explicit: insert_new_explicit(
                    old(self)@.explicit,
                    ExplicitView { instance, scheme: scheme@ },
                ),
                ..old(self)@
            }),
    {
        proof {
            use_type_invariant(&*self);
        }
        let e = ExplicitInstance { instance, scheme };
        if self.find_exp(&e).is_none() {
            let ghost before = self@.explicit;
            let mut list: Vec<ExplicitInstance> = Vec::new();
            std::mem::swap(&mut list, &mut self.explicit);
            list.push(e);
            proof {
                assert(list@.map_values(|e: ExplicitInstance| e@) =~= before.push(e@));
                assert forall|i: int, j: int|
                    0 <= i < before.len() + 1 && 0 <= j < before.len() + 1 && i != j
                    implies !same_explicit(before.push(e@)[i], before.push(e@)[j]) by {
                    if i == before.len() {
                        assert(!same_explicit(before[j], e@));
                    } else if j == before.len() {
                        assert(!same_explicit(before[i], e@));
                    }
                }
            }
            self.explicit = list;
        }
    }

    /// Adds an implicit-instance constraint, unless it is present already.
    pub fn insert_implicit(&mut self, instance: Type, monomorphics: Vec<Type>, to_generalize: Type)
        ensures
            final(self)@ == (ConstraintsView {
                implicit: insert_new(
                    old(self)@.implicit,
                    ImplicitView { instance, monomorphics: monomorphics@, to_generalize },
                ),
                ..old(self)@
            }),
    {
        proof {
            use_type_invariant(&*self);
        }
        let i = ImplicitInstance { instance, monomorphics, to_generalize };
        if self.find_imp(&i).is_none() {
            let ghost before = self@.implicit;
            proof {
                lemma_push_no_duplicates(before, i@);
            }
            let mut list: Vec<ImplicitInstance> = Vec::new();
            std::mem::swap(&mut list, &mut self.implicit);
            list.push(i);
            assert(list@.map_values(|i: ImplicitInstance| i@) =~= before.push(i@));
            self.implicit = list;
        }
    }

    /// Adds the constraints of `other` that `self` lacks, after those of `self`.
    pub fn merge(&mut self, other: Constraints)
        ensures
            final(self)@ == merge_spec(old(self)@, other@),
    {
        let ghost o = other@;
        let mut i: usize = 0;
        while i < other.equality.len()
            invariant
                0 <= i <= other.equality.len(),
                o == other@,
                self@ == (ConstraintsView {
                    equality: insert_all_new(old(self)@.equality, o.equality.take(i as int)),
                    ..old(self)@
                }),
            decreases other.equality.len() - i,
        {
            assert(o.equality.take(i as int + 1).drop_last() =~= o.equality.take(i as int));
            self.insert_eq(other.equality[i].0.clone(), other.equality[i].1.clone());
            i = i + 1;
        }
        assert(o.equality.take(o.equality.len() as int) =~= o.equality);
        let mut i: usize = 0;
        while i < other.explicit.len()
            invariant
                0 <= i <= other.explicit.len(),
                o == other@,
                self@ == (ConstraintsView {
                    equality: insert_all_new(old(self)@.equality, o.equality),
                    explicit: insert_all_new_explicit(old(self)@.explicit, o.explicit.take(i as int)),
                    ..old(self)@
                }),
            decreases other.explicit.len() - i,
        {
            assert(o.explicit.take(i as int + 1).drop_last() =~= o.explicit.take(i as int));
            assert(o.explicit[i as int] == other.explicit@[i as int]@);
            let e = other.explicit[i].clone();
            self.insert_explicit(e.instance, e.scheme);
            i = i + 1;
        }
        assert(o.explicit.take(o.explicit.len() as int) =~= o.explicit);
        let mut i: usize = 0;
        while i < other.implicit.len()
            invariant
                0 <= i <= other.implicit.len(),
                o == other@,
                self@ == (ConstraintsView {
                    equality: insert_all_new(old(self)@.equality, o.equality),
                    explicit: insert_all_new_explicit(old(self)@.explicit, o.explicit),
                    implicit: insert_all_new(old(self)@.implicit, o.implicit.take(i as int)),
                }),
            decreases other.implicit.len() - i,
        {
            assert(o.implicit.take(i as int + 1).drop_last() =~= o.implicit.take(i as int));
            assert(o.implicit[i as int] == other.implicit@[i as int]@);
            let c = other.implicit[i].clone();
            self.insert_implicit(c.instance, c.monomorphics, c.to_generalize);
            i = i + 1;
        }
        assert(o.implicit.take(o.implicit.len() as int) =~= o.implicit);
    }

    /// The first equality constraint, if any.
    pub fn next_eq(&self) -> (r: Option<(Type, Type)>)
        ensures
            self@.equality.len() == 0 ==> r is None,
            self@.equality.len() > 0 ==> r == Some(self@.equality[0]),
    {
        if self.equality.len() == 0 {
            None
        } else {
            Some((self.equality[0].0.clone(), self.equality[0].1.clone()))
        }
    }

    /// The first explicit-instance constraint, if any.
    pub fn next_explicit(&self) -> (r: Option<ExplicitInstance>)
        ensures
            self@.explicit.len() == 0 ==> r is None,
            self@.explicit.len() > 0 ==> (r matches Some(e) && e@ == self@.explicit[0]),
    {
        if self.explicit.len() == 0 {
            None
        } else {
            Some(self.explicit[0].clone())
        }
    }

    /// The index of the first implicit-instance constraint that may be generalized, if any.
    pub fn eligible_implicit(&self) -> (r: Option<usize>)
        ensures
            r matches Some(j) ==> first_eligible(self@, j as int),
            r is None ==> forall|k: int| 0 <= k < self@.implicit.len() ==> !eligible(self@, k),
    {
        let mut j: usize = 0;
        while j < self.implicit.len()
            invariant
                0 <= j <= self.implicit.len(),
                forall|k: int| 0 <= k < j ==> !eligible(self@, k),
            decreases self.implicit.len() - j,
        {
            let active = self.active_vars_except(Some(j));
            let gen = self.implicit[j].to_generalize.free_vars();
            let shared = common_ids(&gen, &active);
            assert(self@.implicit[j as int] == self.implicit@[j as int]@);
            if shared.len() == 0 {
                proof {
                    assert forall|x: u32| free(self@.implicit[j as int].to_generalize).contains(x)
                        implies !active_except(self@, j as int).contains(x) by {
                        assert(gen@.to_set().contains(x));
                        if active_except(self@, j as int).contains(x) {
                            assert(shared@.contains(x));
                        }
                    }
                }
                return Some(j);
            }
            proof {
                let x = shared@[0];
                assert(shared@.contains(x));
                assert(gen@.to_set().contains(x));
            }
            j = j + 1;
        }
        None
    }

    /// The first implicit-instance constraint none of whose variables to generalize is
    /// active in the other constraints, if any.
    pub fn next_implicit(&self) -> (r: Option<ImplicitInstance>)
        ensures
            r matches Some(i) ==> exists|j: int| first_eligible(self@, j) && i@ == self@.implicit[j],
            r is None ==> forall|k: int| 0 <= k < self@.implicit.len() ==> !eligible(self@, k),
    {
        match self.eligible_implicit() {
            Some(j) => {
                assert(self@.implicit[j as int] == self.implicit@[j as int]@);
                Some(self.implicit[j].clone())
            },
            None => None,
        }
    }

    /// Removes the equality constraint `value`; returns whether it was present.
    pub fn remove_eq(&mut self, value: &(Type, Type)) -> (r: bool)
        ensures
            r == old(self)@.equality.contains(*value),
            !final(self)@.equality.contains(*value),
            r ==> exists|k: int|
                0 <= k < old(self)@.equality.len() && old(self)@.equality[k] == *value
                    && final(self)@ == (ConstraintsView {
                    equality: old(self)@.equality.remove(k),
                    ..old(self)@
                }),
            !r ==> final(self)@ == old(self)@,
    {
        proof {
            use_type_invariant(&*self);
        }
        match self.find_eq(value) {
            Some(k) => {
                let ghost before = self@;
                let mut list: Vec<(Type, Type)> = Vec::new();
                std::mem::swap(&mut list, &mut self.equality);
                list.remove(k);
                proof {
                    lemma_remove_no_duplicates(before.equality, k as int);
                }
                self.equality = list;
                assert(self@ == (ConstraintsView {
                    equality: before.equality.remove(k as int),
                    ..before
                }));
                true
            },
            None => false,
        }
    }

    /// Removes the explicit-instance constraint that is the same as `value`; returns whether
    /// there was one.
    pub fn remove_exp(&mut self, value: &ExplicitInstance) -> (r: bool)
        ensures
            r == has_same_explicit(old(self)@.explicit, value@),
            !has_same_explicit(final(self)@.explicit, value@),
            r ==> exists|k: int|
                0 <= k < old(self)@.explicit.len() && same_explicit(old(self)@.explicit[k], value@)
                    && final(self)@ == (ConstraintsView {
                    explicit: old(self)@.explicit.remove(k),
                    ..old(self)@
                }),
            !r ==> final(self)@ == old(self)@,
    {
        proof {
            use_type_invariant(&*self);
        }
        match self.find_exp(value) {
            Some(k) => {
                let ghost before = self@.explicit;
                let mut list: Vec<ExplicitInstance> = Vec::new();
                std::mem::swap(&mut list, &mut self.explicit);
                list.remove(k);
                proof {
                    let r = list@.map_values(|e: ExplicitInstance| e@);
                    assert(r =~= before.remove(k as int));
                    assert forall|i: int, j: int| 0 <= i < r.len() && 0 <= j < r.len() && i != j implies !same_explicit(r[i], r[j]) by {
                        let mi = if i < k { i } else { i + 1 };
                        let mj = if j < k { j } else { j + 1 };
                        assert(r[i] == before[mi] && r[j] == before[mj]);
                    }
                }
                self.explicit = list;
                assert forall|i: int| 0 <= i < self@.explicit.len() implies !same_explicit(
                    #[trigger] self@.explicit[i],
                    value@,
                ) by {
                    let m = if i < k { i } else { i + 1 };
                    assert(self@.explicit[i] == before[m]);
                    assert(!same_explicit(before[m], before[k as int]));
                }
                true
            },
            None => false,
        }
    }

    /// Removes the implicit-instance constraint `value`; returns whether it was present.
    pub fn remove_imp(&mut self, value: &ImplicitInstance) -> (r: bool)
        ensures
            r == old(self)@.implicit.contains(value@),
            !final(self)@.implicit.contains(value@),
            r ==> exists|k: int|
                0 <= k < old(self)@.implicit.len() && old(self)@.implicit[k] == value@
                    && final(self)@ == (ConstraintsView {
                    implicit: old(self)@.implicit.remove(k),
                    ..old(self)@
                }),
            !r ==> final(self)@ == old(self)@,
    {
        proof {
            use_type_invariant(&*self);
        }
        match self.find_imp(value) {
            Some(k) => {
                let ghost before = self@.implicit;
                let mut list: Vec<ImplicitInstance> = Vec::new();
                std::mem::swap(&mut list, &mut self.implicit);
                list.remove(k);
                proof {
                    assert(list@.map_values(|i: ImplicitInstance| i@) =~= before.remove(k as int));
                    lemma_remove_no_duplicates(before, k as int);
                }
                self.implicit = list;
                true
            },
            None => false,
        }
    }
}

/// Pushing an element that `s` lacks keeps `s` free of duplicates.
proof fn lemma_push_no_duplicates<A>(s: Seq<A>, x: A)
    requires
        s.no_duplicates(),
        !s.contains(x),
    ensures
        s.push(x).no_duplicates(),
{
    assert forall|i: int, j: int|
        0 <= i < s.len() + 1 && 0 <= j < s.len() + 1 && i != j implies s.push(x)[i] != s.push(x)[j] by {
        if i == s.len() {
            assert(s[j] != x);
        } else if j == s.len() {
            assert(s[i] != x);
        }
    }
}

/// Removing the element at `k` of a sequence without duplicates removes every copy of it.
proof fn lemma_remove_no_duplicates<A>(s: Seq<A>, k: int)
    requires
        s.no_duplicates(),
        0 <= k < s.len(),
    ensures
        !s.remove(k).contains(s[k]),
        s.remove(k).no_duplicates(),
{
    let r = s.remove(k);
    if r.contains(s[k]) {
        let i = choose|i: int| 0 <= i < r.len() && r[i] == s[k];
        let m = if i < k { i } else { i + 1 };
        assert(r[i] == s[m]);
    }
    assert forall|i: int, j: int| 0 <= i < r.len() && 0 <= j < r.len() && i != j implies r[i] != r[j] by {
        let mi = if i < k { i } else { i + 1 };
        let mj = if j < k { j } else { j + 1 };
        assert(r[i] == s[mi] && r[j] == s[mj]);
    }
}

impl ApplySubst for Constraints {
    open spec fn substituted_to(&self, s: Map<u32, Type>, after: &Self) -> bool {
        after@ == apply_constraints(s, self@)
    }

    /// Applies the substitution to the types in every constraint; constraints whose images
    /// coincide become one.
    fn apply_subst(&mut self, subs: &Substitution) {
        let ghost c = self@;
        let ghost eqs = apply_equalities(subs@, c.equality);
        let ghost exps = c.explicit.map_values(|e: ExplicitView| apply_explicit(subs@, e));
        let ghost imps = c.implicit.map_values(|i: ImplicitView| apply_implicit(subs@, i));
        let mut out = Constraints::new();
        let mut i: usize = 0;
        while i < self.equality.len()
            invariant
                0 <= i <= self.equality.len(),
                c == self@,
                eqs == apply_equalities(subs@, c.equality),
                out@ == (ConstraintsView {
                    equality: insert_all_new(Seq::empty(), eqs.take(i as int)),
                    ..empty_constraints()
                }),
            decreases self.equality.len() - i,
        {
            assert(eqs.take(i as int + 1).drop_last() =~= eqs.take(i as int));
            out.insert_eq(self.equality[i].0.substitute(subs), self.equality[i].1.substitute(subs));
            i = i + 1;
        }
        assert(eqs.take(eqs.len() as int) =~= eqs);
        let mut i: usize = 0;
        while i < self.explicit.len()
            invariant
                0 <= i <= self.explicit.len(),
                c == self@,
                exps == c.explicit.map_values(|e: ExplicitView| apply_explicit(subs@, e)),
                out@ == (ConstraintsView {
                    equality: insert_all_new(Seq::empty(), eqs),
                    explicit: insert_all_new_explicit(Seq::empty(), exps.take(i as int)),
                    ..empty_constraints()
                }),
            decreases self.explicit.len() - i,
        {
            assert(exps.take(i as int + 1).drop_last() =~= exps.take(i as int));
            assert(c.explicit[i as int] == self.explicit@[i as int]@);
            let mut e = self.explicit[i].clone();
            e.scheme.apply_subst(subs);
            out.insert_explicit(e.instance.substitute(subs), e.scheme);
            i = i + 1;
        }
        assert(exps.take(exps.len() as int) =~= exps);
        let mut i: usize = 0;
        while i < self.implicit.len()
            invariant
                0 <= i <= self.implicit.len(),
                c == self@,
                imps == c.implicit.map_values(|i: ImplicitView| apply_implicit(subs@, i)),
                out@ == (ConstraintsView {
                    equality: insert_all_new(Seq::empty(), eqs),
                    explicit: insert_all_new_explicit(Seq::empty(), exps),
                    implicit: insert_all_new(Seq::empty(), imps.take(i as int)),
                }),
            decreases self.implicit.len() - i,
        {
            assert(imps.take(i as int + 1).drop_last() =~= imps.take(i as int));
            assert(c.implicit[i as int] == self.implicit@[i as int]@);
            let mut e = self.implicit[i].clone();
            e.monomorphics.apply_subst(subs);
            out.insert_implicit(
                e.instance.substitute(subs),
                e.monomorphics,
                e.to_generalize.substitute(subs),
            );
            i = i + 1;
        }
        assert(imps.take(imps.len() as int) =~= imps);
        *self = out;
    }
}

} // verus!
