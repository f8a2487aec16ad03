use vstd::prelude::*;

verus! {

/// A monomorphic type.
#[derive(Debug, Hash)]
pub enum Type {
    Int,
    Str,
    /// the unit type
    Nothing,
    /// a function from the first type to the second
    F(Box<Type>, Box<Type>),
    /// a type variable, by id
    Unknown(u32),
}

impl Clone for Type {
    fn clone(&self) -> (r: Self)
        ensures
            r == *self,
        decreases self,
    {
        match self {
            Type::Int => Type::Int,
            Type::Str => Type::Str,
            Type::Nothing => Type::Nothing,
            Type::F(a, b) => Type::F(Box::new((**a).clone()), Box::new((**b).clone())),
            Type::Unknown(id) => Type::Unknown(*id),
        }
    }
}

impl PartialEq for Type {
    fn eq(&self, other: &Type) -> (r: bool)
        ensures
            r == (*self == *other),
        decreases self,
    {
        match (self, other) {
            (Type::Int, Type::Int) => true,
            (Type::Str, Type::Str) => true,
            (Type::Nothing, Type::Nothing) => true,
            (Type::F(a1, b1), Type::F(a2, b2)) => (**a1).eq(&**a2) && (**b1).eq(&**b2),
            (Type::Unknown(i), Type::Unknown(j)) => *i == *j,
            _ => false,
        }
    }
}

impl vstd::std_specs::cmp::PartialEqSpecImpl for Type {
    open spec fn obeys_eq_spec() -> bool {
        true
    }

    open spec fn eq_spec(&self, other: &Type) -> bool {
        *self == *other
    }
}

impl Eq for Type {
}

/// The ids of the `Unknown` nodes of `t`.
pub open spec fn free(t: Type) -> Set<u32>
    decreases t,
{
    match t {
        Type::F(a, b) => free(*a).union(free(*b)),
        Type::Unknown(id) => set![id],
        _ => Set::empty(),
    }
}

/// The ids of `t`'s variables appended to `acc` in order of first occurrence, each once.
pub open spec fn free_acc(t: Type, acc: Seq<u32>) -> Seq<u32>
    decreases t,
{
    match t {
        Type::F(a, b) => free_acc(*b, free_acc(*a, acc)),
        Type::Unknown(id) => if acc.contains(id) {
            acc
        } else {
            acc.push(id)
        },
        _ => acc,
    }
}

/// The elements of `s.push(v)` are those of `s` and `v`.
pub proof fn lemma_push_contains<A>(s: Seq<A>, v: A)
    ensures
        forall|y: A| #[trigger] s.push(v).contains(y) <==> s.contains(y) || y == v,
{
    assert forall|y: A| #[trigger] s.push(v).contains(y) <==> s.contains(y) || y == v by {
        if s.push(v).contains(y) {
            let k = choose|k: int| 0 <= k < s.len() + 1 && s.push(v)[k] == y;
            if k < s.len() {
                assert(s[k] == y);
            }
        }
        if s.contains(y) {
            let k = choose|k: int| 0 <= k < s.len() && s[k] == y;
            assert(s.push(v)[k] == y);
        }
        if y == v {
            assert(s.push(v)[s.len() as int] == y);
        }
    }
}

/// The free variables of `t` in order of first occurrence.
pub open spec fn free_list(t: Type) -> Seq<u32> {
    free_acc(t, Seq::empty())
}

/// The union of the free variables of a sequence of types.
pub open spec fn free_seq(ts: Seq<Type>) -> Set<u32> {
    Set::new(|x: u32| exists|i: int| 0 <= i < ts.len() && #[trigger] free(ts[i]).contains(x))
}

pub proof fn lemma_free_acc(t: Type, acc: Seq<u32>)
    ensures
        forall|x: u32| #[trigger]
            free_acc(t, acc).contains(x) <==> acc.contains(x) || free(t).contains(x),
        acc.no_duplicates() ==> free_acc(t, acc).no_duplicates(),
    decreases t,
{
    match t {
        Type::F(a, b) => {
            lemma_free_acc(*a, acc);
            lemma_free_acc(*b, free_acc(*a, acc));
            assert forall|x: u32| #[trigger]
                free_acc(t, acc).contains(x) <==> acc.contains(x) || free(t).contains(x) by {
                assert(free_acc(*a, acc).contains(x) <==> acc.contains(x) || free(*a).contains(x));
                assert(free_acc(*b, free_acc(*a, acc)).contains(x) <==> free_acc(*a, acc).contains(x)
                    || free(*b).contains(x));
            }
        },
        Type::Unknown(id) => {
            if !acc.contains(id) {
                lemma_push_contains(acc, id);
            }
        },
        _ => {},
    }
}

/// `free_list(t)` lists each free variable of `t` exactly once.
pub proof fn lemma_free_list(t: Type)
    ensures
        free_list(t).to_set() == free(t),
        free_list(t).no_duplicates(),
{
    lemma_free_acc(t, Seq::empty());
    assert(free_list(t).to_set() =~= free(t));
}

impl Type {
    /// Appends the free variables of `self` that `acc` lacks, in order of first occurrence.
    pub fn collect_free(&self, acc: &mut Vec<u32>)
        ensures
            final(acc)@ == free_acc(*self, old(acc)@),
        decreases self,
    {
        match self {
            Type::F(a, b) => {
                a.collect_free(acc);
                b.collect_free(acc);
            },
            Type::Unknown(id) => {
                if !contains_id(acc, *id) {
                    acc.push(*id);
                }
            },
            _ => {},
        }
    }
}

/// Whether `id` is an element of `ids`.
pub fn contains_id(ids: &Vec<u32>, id: u32) -> (r: bool)
    ensures
        r == ids@.contains(id),
{
    let mut i: usize = 0;
    while i < ids.len()
        invariant
            0 <= i <= ids.len(),
            forall|k: int| 0 <= k < i ==> ids@[k] != id,
        decreases ids.len() - i,
    {
        if ids[i] == id {
            return true;
        }
        i = i + 1;
    }
    false
}

/// Anything that has free type variables.
pub trait FreeVars {
    /// The free type variables, as a set.
    spec fn free_set(&self) -> Set<u32>;

    /// The free type variables, each once.
    fn free_vars(&self) -> (r: Vec<u32>)
        ensures
            r@.to_set() == self.free_set(),
            r@.no_duplicates(),
    ;
}

impl FreeVars for Type {
    open spec fn free_set(&self) -> Set<u32> {
        free(*self)
    }

    fn free_vars(&self) -> (r: Vec<u32>) {
        let mut acc: Vec<u32> = Vec::new();
        self.collect_free(&mut acc);
        proof {
            lemma_free_list(*self);
        }
        acc
    }
}

impl FreeVars for Vec<Type> {
    open spec fn free_set(&self) -> Set<u32> {
        free_seq(self@)
    }

    fn free_vars(&self) -> (r: Vec<u32>) {
        let mut acc: Vec<u32> = Vec::new();
        let mut i: usize = 0;
        while i < self.len()
            invariant
                0 <= i <= self.len(),
                acc@.no_duplicates(),
                forall|x: u32|
                    #![trigger acc@.contains(x)]
                    acc@.contains(x) <==> exists|k: int|
                        0 <= k < i && #[trigger] free(self@[k]).contains(x),
            decreases self.len() - i,
        {
            proof {
                lemma_free_acc(self@[i as int], acc@);
            }
            self[i].collect_free(&mut acc);
            assert forall|x: u32| acc@.contains(x) <==> exists|k: int|
                0 <= k < i + 1 && #[trigger] free(self@[k]).contains(x) by {
                if free(self@[i as int]).contains(x) {
                    assert(0 <= i < i + 1);
                }
            }
            i = i + 1;
        }
        assert(acc@.to_set() =~= free_seq(self@));
        acc
    }
}

/// A type scheme: `body` with the ids in `quantified` bound.
#[derive(Debug)]
pub struct Scheme {
    pub quantified: Vec<u32>,
    pub body: Type,
}

/// The mathematical value of a scheme.
pub ghost struct SchemeView {
    pub quantified: Seq<u32>,
    pub body: Type,
}

impl View for Scheme {
    type V = SchemeView;

    open spec fn view(&self) -> SchemeView {
        SchemeView { quantified: self.quantified@, body: self.body }
    }
}

/// The free variables of a scheme: those of its body that it does not bind.
pub open spec fn scheme_free(s: SchemeView) -> Set<u32> {
    free(s.body).difference(s.quantified.to_set())
}

impl Clone for Scheme {
    fn clone(&self) -> (r: Self)
        ensures
            r@ == self@,
    {
        Scheme { quantified: self.quantified.clone(), body: self.body.clone() }
    }
}

impl FreeVars for Scheme {
    open spec fn free_set(&self) -> Set<u32> {
        scheme_free(self@)
    }

    fn free_vars(&self) -> (r: Vec<u32>) {
        let body = self.body.free_vars();
        let mut acc: Vec<u32> = Vec::new();
        let mut i: usize = 0;
        while i < body.len()
            invariant
                0 <= i <= body.len(),
                body@.to_set() == free(self.body),
                body@.no_duplicates(),
                acc@.no_duplicates(),
                forall|x: u32|
                    #![trigger acc@.contains(x)]
                    acc@.contains(x) <==> exists|k: int|
                        0 <= k < i && body@[k] == x && !self.quantified@.contains(x),
            decreases body.len() - i,
        {
            let x = body[i];
            let ghost prev = acc@;
            if !contains_id(&self.quantified, x) {
                assert(!prev.contains(x)) by {
                    if prev.contains(x) {
                        let j = choose|j: int| 0 <= j < i && body@[j] == x && !self.quantified@.contains(x);
                        assert(body@[j] == body@[i as int]);
                    }
                }
                proof {
                    lemma_push_contains(prev, x);
                }
                acc.push(x);
            }
            assert forall|y: u32| #[trigger] acc@.contains(y) <==> exists|k: int|
                0 <= k < i + 1 && body@[k] == y && !self.quantified@.contains(y) by {
                if y == x && !self.quantified@.contains(y) {
                    assert(0 <= i < i + 1 && body@[i as int] == y);
                }
            }
            i = i + 1;
        }
        assert forall|x: u32| acc@.to_set().contains(x) <==> scheme_free(self@).contains(x) by {
            if free(self.body).contains(x) {
                assert(body@.to_set().contains(x));
            }
        }
        assert(acc@.to_set() =~= scheme_free(self@));
        acc
    }
}

} // verus!
