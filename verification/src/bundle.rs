//! The in-memory resource store: an ordered sequence of named entries with
//! name-keyed lookup.
//!
//! Lookup resolves a name to the entry that most recently bore it, so a
//! duplicated name shadows the earlier entry while the earlier entry stays in
//! the sequence, as the wire protocol prescribes. A name that no entry bears
//! resolves to nothing, never to a substitute entry.

use vstd::prelude::*;
use vstd::string::StrSliceExecFns;

verus! {

/// A path that no entry of the bundle bears.
#[derive(Debug)]
pub struct ResolveError {
    pub path: String,
}

/// An ordered sequence of named entries, looked up by exact name.
#[derive(Debug)]
pub struct ResourceBundle<T> {
    pub names: Vec<String>,
    pub items: Vec<T>,
}

impl<T> ResourceBundle<T> {
    /// One name per item.
    pub open spec fn wf(self) -> bool {
        self.names@.len() == self.items@.len()
    }

    /// The entry names, as character sequences.
    pub open spec fn names_v(self) -> Seq<Seq<char>> {
        self.names.deep_view()
    }

    /// Position of the entry a name resolves to: the last one bearing it.
    pub open spec fn lookup(self, name: Seq<char>) -> Option<int> {
        self.names_v().index_of_last(name)
    }

    /// Whether any entry bears this name.
    pub open spec fn contains_name(self, name: Seq<char>) -> bool {
        self.names_v().contains(name)
    }

    /// An empty bundle.
    pub fn new() -> (r: ResourceBundle<T>)
        ensures
            r.wf(),
            r.names_v() == Seq::<Seq<char>>::empty(),
            r.items@ == Seq::<T>::empty(),
    {
        let r = ResourceBundle { names: Vec::new(), items: Vec::new() };
        proof {
            assert(r.names_v() =~= Seq::<Seq<char>>::empty());
        }
        r
    }

    /// Appends an entry; its name shadows any earlier entry of the same name.
    pub fn push(&mut self, name: String, item: T)
        requires
            old(self).wf(),
        ensures
            final(self).wf(),
            final(self).names_v() == old(self).names_v().push(name@),
            final(self).items@ == old(self).items@.push(item),
    {
        let ghost pre = self.names_v();
        self.names.push(name);
        self.items.push(item);
        proof {
            assert(self.names_v() =~= pre.push(self.names@[self.names@.len() - 1]@));
        }
    }

    /// Resolves a path against the entry names: the shadowing entry on a hit,
    /// an error carrying the path on a miss — never a substitute entry.
    pub fn resolve<'a>(&'a self, path: &str) -> (r: Result<&'a T, ResolveError>)
        requires
            self.wf(),
        ensures
            match r {
                Ok(item) => self.contains_name(path@) && self.lookup(path@) is Some && *item
                    == self.items@[self.lookup(path@)->0],
                Err(e) => !self.contains_name(path@) && e.path@ == path@,
            },
    {
        let p = path.to_owned();
        let ghost nv = self.names_v();
        let n = self.names.len();
        let mut j = n;
        while j > 0
            invariant
                0 <= j <= n,
                n == self.names@.len(),
                self.wf(),
                p@ == path@,
                nv == self.names_v(),
                forall|l: int| j <= l < n ==> nv[l] != path@,
            decreases j,
        {
            j -= 1;
            if self.names[j].eq(&p) {
                proof {
                    assert(nv[j as int] == path@);
                    assert(nv.contains(path@));
                    nv.index_of_last_ensures(path@);
                    let idx = nv.index_of_last(path@)->0;
                    if idx < j {
                        assert(nv[j as int] != path@);
                    }
                    if idx > j {
                        assert(nv[idx] != path@);
                    }
                    assert(idx == j);
                }
                return Ok(&self.items[j]);
            }
            proof {
                assert(nv[j as int] != path@);
            }
        }
        proof {
            if nv.contains(path@) {
                let w = choose|i: int| 0 <= i < nv.len() && nv[i] == path@;
                assert(nv[w] != path@);
            }
            nv.index_of_last_ensures(path@);
        }
        Err(ResolveError { path: p })
    }

    /// An empty bundle resolves no name at all.
    pub proof fn lemma_empty_resolves_nothing(self, name: Seq<char>)
        requires
            self.names_v().len() == 0,
        ensures
            !self.contains_name(name),
            self.lookup(name) is None,
    {
        if self.names_v().contains(name) {
            let w = choose|i: int| 0 <= i < self.names_v().len() && self.names_v()[i] == name;
        }
        self.names_v().index_of_last_ensures(name);
    }

    /// A name no later entry repeats resolves to its own entry.
    pub proof fn lemma_lookup_at(self, k: int)
        requires
            0 <= k < self.names_v().len(),
            forall|j: int| k < j < self.names_v().len() ==> self.names_v()[j] != self.names_v()[k],
        ensures
            self.lookup(self.names_v()[k]) == Some(k),
    {
        let nv = self.names_v();
        assert(nv.contains(nv[k]));
        nv.index_of_last_ensures(nv[k]);
        let idx = nv.index_of_last(nv[k])->0;
        if idx < k {
            assert(nv[k] != nv[k]);
        }
        if idx > k {
            assert(nv[idx] != nv[k]);
        }
    }
}

} // verus!
