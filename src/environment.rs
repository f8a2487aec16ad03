use vstd::prelude::*;

use crate::types::{Scheme, SchemeView};

verus! {

/// The scheme that the bindings `b` give `name`: a later binding wins.
pub open spec fn lookup(b: Seq<(String, Scheme)>, name: Seq<char>) -> Option<SchemeView>
    decreases b.len(),
{
    if b.len() == 0 {
        None
    } else if b.last().0@ == name {
        Some(b.last().1@)
    } else {
        lookup(b.drop_last(), name)
    }
}

/// The type schemes of the identifiers that an expression may use without binding them.
#[derive(Debug)]
pub struct Environment {
    bindings: Vec<(String, Scheme)>,
}

impl Environment {
    /// The scheme of `name`, if any.
    pub closed spec fn scheme_of(&self, name: Seq<char>) -> Option<SchemeView> {
        lookup(self.bindings@, name)
    }

    /// An environment without identifiers.
    pub fn new() -> (r: Environment)
        ensures
            forall|name: Seq<char>| r.scheme_of(name) is None,
    {
        Environment { bindings: Vec::new() }
    }

    /// Gives `name` the scheme `scheme`, replacing any earlier one.
    pub fn insert(&mut self, name: String, scheme: Scheme)
        ensures
            final(self).scheme_of(name@) == Some(scheme@),
            forall|other: Seq<char>|
                other != name@ ==> final(self).scheme_of(other) == old(self).scheme_of(other),
    {
        self.bindings.push((name, scheme));
        assert(self.bindings@.drop_last() =~= old(self).bindings@);
    }

    /// The scheme of `name`, if any.
    pub fn get(&self, name: &String) -> (r: Option<&Scheme>)
        ensures
            self.scheme_of(name@) is None ==> r is None,
            self.scheme_of(name@) matches Some(s) ==> (r matches Some(x) && x@ == s),
    {
        let mut i: usize = self.bindings.len();
        assert(self.bindings@.take(i as int) =~= self.bindings@);
        while i > 0
            invariant
                0 <= i <= self.bindings.len(),
                lookup(self.bindings@, name@) == lookup(self.bindings@.take(i as int), name@),
            decreases i,
        {
            assert(self.bindings@.take(i as int).drop_last() =~= self.bindings@.take(i as int - 1));
            if self.bindings[i - 1].0 == *name {
                return Some(&self.bindings[i - 1].1);
            }
            i = i - 1;
        }
        None
    }
}

} // verus!
