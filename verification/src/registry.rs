//! The registry of declared type names.

use vstd::prelude::*;
use crate::reader::listed;
use crate::text::{chars_of, string_of, texts};
use crate::tree::strings;

verus! {

/// The names of the types declared so far, in the order of their
/// declarations. No name stands in it twice.
#[derive(Debug, PartialEq, Eq)]
pub struct TypeRegistry {
    names: Vec<Vec<char>>,
}

impl View for TypeRegistry {
    type V = Seq<Seq<char>>;

    closed spec fn view(&self) -> Seq<Seq<char>> {
        texts(self.names@)
    }
}

impl TypeRegistry {
    #[verifier::type_invariant]
    spec fn distinct(self) -> bool {
        self@.no_duplicates()
    }

    /// The registry without names.
    pub fn new() -> (r: TypeRegistry)
        ensures
            r@ == Seq::<Seq<char>>::empty(),
    {
        let names: Vec<Vec<char>> = Vec::new();
        assert(texts(names@) =~= Seq::<Seq<char>>::empty());
        TypeRegistry { names }
    }

    /// The registry of the given names, which are distinct.
    pub(crate) fn from_names(names: Vec<Vec<char>>) -> (r: TypeRegistry)
        requires
            texts(names@).no_duplicates(),
        ensures
            r@ == texts(names@),
    {
        TypeRegistry { names }
    }

    /// The names of the registry.
    pub(crate) fn into_names(self) -> (r: Vec<Vec<char>>)
        ensures
            texts(r@) == self@,
            self@.no_duplicates(),
    {
        proof {
            use_type_invariant(&self);
        }
        self.names
    }

    /// Whether a name is registered.
    pub fn contains(&self, name: &str) -> (r: bool)
        ensures
            r == self@.contains(name@),
    {
        let w = chars_of(name);
        listed(&self.names, &w)
    }

    /// The registry with `name` as its last name, or the registry as it is
    /// where the name is registered already.
    pub fn declare(self, name: &str) -> (r: TypeRegistry)
        ensures
            r@ == if self@.contains(name@) {
                self@
            } else {
                self@.push(name@)
            },
            r@.no_duplicates(),
    {
        proof {
            use_type_invariant(&self);
        }
        let w = chars_of(name);
        let ghost before = self@;
        let TypeRegistry { names } = self;
        let mut names = names;
        if !listed(&names, &w) {
            names.push(w);
            assert(texts(names@) =~= before.push(name@));
            assert(texts(names@).no_duplicates()) by {
                let r = texts(names@);
                assert forall|i: int, j: int|
                    0 <= i < r.len() && 0 <= j < r.len() && i != j implies r[i] != r[j] by {
                    if i < before.len() && j < before.len() {
                    } else if i < before.len() {
                        assert(before[i] != name@);
                    } else {
                        assert(before[j] != name@);
                    }
                }
            }
        }
        TypeRegistry { names }
    }

    /// The number of names.
    pub fn len(&self) -> (r: usize)
        ensures
            r == self@.len(),
    {
        self.names.len()
    }

    /// The names in the order of their declarations.
    pub fn names(&self) -> (r: Vec<String>)
        ensures
            strings(r@) == self@,
            self@.no_duplicates(),
    {
        proof {
            use_type_invariant(self);
        }
        let mut out: Vec<String> = Vec::new();
        let mut i: usize = 0;
        while i < self.names.len()
            invariant
                i <= self.names.len(),
                out.len() == i,
                forall|j: int| 0 <= j < i ==> out@[j]@ == self.names@[j]@,
            decreases self.names.len() - i,
        {
            out.push(string_of(&self.names[i]));
            i += 1;
        }
        assert(strings(out@) =~= texts(self.names@));
        out
    }
}

} // verus!
