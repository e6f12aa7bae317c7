//! The containers that the agent has seen, each under its identity. An
//! identity is entered once and never leaves.

use vstd::prelude::*;
use crate::container::{extendable, extended, Container};
use crate::error::Error;
use crate::measurement::RegisterView;
use crate::tcg::TcgEventlog;
use crate::text::same_text;

verus! {

/// A mapping from identities to containers.
pub struct Registry {
    ids: Vec<String>,
    containers: Vec<Container>,
}

impl View for Registry {
    type V = Map<Seq<char>, RegisterView>;

    closed spec fn view(&self) -> Map<Seq<char>, RegisterView> {
        Map::new(
            |id: Seq<char>| self.holds(id),
            |id: Seq<char>| self.containers@[self.index_of(id)]@,
        )
    }
}

impl Registry {
    /// Some entry has the identity `id`.
    closed spec fn holds(&self, id: Seq<char>) -> bool {
        exists|i: int| 0 <= i < self.ids@.len() && (#[trigger] self.ids@[i])@ == id
    }

    /// Position of an entry with the identity `id`.
    closed spec fn index_of(&self, id: Seq<char>) -> int {
        choose|i: int| 0 <= i < self.ids@.len() && (#[trigger] self.ids@[i])@ == id
    }

    /// Each container has one identity, and no identity occurs twice.
    pub closed spec fn well_formed(&self) -> bool {
        &&& self.ids@.len() == self.containers@.len()
        &&& forall|i: int, j: int|
            0 <= i < j < self.ids@.len() ==> (#[trigger] self.ids@[i])@ != (
            #[trigger] self.ids@[j])@
    }

    /// The entry at position `i` is found under its identity.
    proof fn lemma_entry(&self, i: int)
        requires
            self.well_formed(),
            0 <= i < self.ids@.len(),
        ensures
            self@.dom().contains(self.ids@[i]@),
            self@[self.ids@[i]@] == self.containers@[i]@,
            self.index_of(self.ids@[i]@) == i,
    {
        let id = self.ids@[i]@;
        assert(self.holds(id));
        let found = self.index_of(id);
        if found < i {
            assert(self.ids@[found]@ != self.ids@[i]@);
        } else if i < found {
            assert(self.ids@[i]@ != self.ids@[found]@);
        }
    }

    /// A registry without containers.
    pub fn new() -> (registry: Registry)
        ensures
            registry.well_formed(),
            registry@ == Map::<Seq<char>, RegisterView>::empty(),
    {
        let registry = Registry { ids: Vec::new(), containers: Vec::new() };
        assert(registry@ =~= Map::<Seq<char>, RegisterView>::empty());
        registry
    }

    /// Number of containers.
    pub fn len(&self) -> (count: usize)
        requires
            self.well_formed(),
        ensures
            count == self@.dom().len(),
            self@.dom().finite(),
    {
        proof {
            self.lemma_count(self.ids@.len() as int);
            assert(self.ids_below(self.ids@.len() as int) =~= self@.dom());
        }
        self.ids.len()
    }

    /// The identities of the first `n` entries.
    closed spec fn ids_below(&self, n: int) -> Set<Seq<char>> {
        Set::new(|id: Seq<char>| exists|i: int| 0 <= i < n && (#[trigger] self.ids@[i])@ == id)
    }

    /// The first `n` entries have `n` identities.
    proof fn lemma_count(&self, n: int)
        requires
            self.well_formed(),
            0 <= n <= self.ids@.len(),
        ensures
            self.ids_below(n).finite(),
            self.ids_below(n).len() == n,
        decreases n,
    {
        if n == 0 {
            assert(self.ids_below(0) =~= Set::<Seq<char>>::empty());
        } else {
            self.lemma_count(n - 1);
            let last = self.ids@[n - 1]@;
            assert(!self.ids_below(n - 1).contains(last)) by {
                if self.ids_below(n - 1).contains(last) {
                    let i = choose|i: int| 0 <= i < n - 1 && (#[trigger] self.ids@[i])@ == last;
                    assert(self.ids@[i]@ != self.ids@[n - 1]@);
                }
            }
            assert(self.ids_below(n) =~= self.ids_below(n - 1).insert(last)) by {
                assert forall|id: Seq<char>| self.ids_below(n).contains(id) implies self.ids_below(
                    n - 1,
                ).insert(last).contains(id) by {
                    let i = choose|i: int| 0 <= i < n && (#[trigger] self.ids@[i])@ == id;
                    if i < n - 1 {
                        assert(self.ids_below(n - 1).contains(id));
                    }
                }
                assert forall|id: Seq<char>|
                    self.ids_below(n - 1).insert(last).contains(id) implies self.ids_below(
                    n,
                ).contains(id) by {
                    if id == last {
                        assert(self.ids@[n - 1]@ == id);
                    } else {
                        let i = choose|i: int| 0 <= i < n - 1 && (#[trigger] self.ids@[i])@ == id;
                        assert(self.ids@[i]@ == id);
                    }
                }
            }
        }
    }

    /// Position of the container with the identity `id`.
    fn position(&self, id: &str) -> (position: Option<usize>)
        requires
            self.well_formed(),
        ensures
            position is Some <==> self@.dom().contains(id@),
            position matches Some(at) ==> at < self.ids@.len() && self.ids@[at as int]@ == id@
                && self@[id@] == self.containers@[at as int]@,
    {
        let mut at: usize = 0;
        while at < self.ids.len()
            invariant
                at <= self.ids@.len(),
                self.well_formed(),
                forall|k: int| 0 <= k < at ==> (#[trigger] self.ids@[k])@ != id@,
            decreases self.ids@.len() - at,
        {
            if same_text(self.ids[at].as_str(), id) {
                proof {
                    self.lemma_entry(at as int);
                }
                return Some(at);
            }
            at = at + 1;
        }
        None
    }

    /// Whether a container has the identity `id`.
    pub fn contains_key(&self, id: &str) -> (present: bool)
        requires
            self.well_formed(),
        ensures
            present == self@.dom().contains(id@),
    {
        self.position(id).is_some()
    }

    /// The container with the identity `id`, if there is one.
    pub fn get(&self, id: &str) -> (container: Option<&Container>)
        requires
            self.well_formed(),
        ensures
            container is Some <==> self@.dom().contains(id@),
            container matches Some(c) ==> c@ == self@[id@],
    {
        match self.position(id) {
            Some(at) => Some(&self.containers[at]),
            None => None,
        }
    }

    /// Enters `container` under the identity `id`, which is not in use.
    pub fn insert(&mut self, id: String, container: Container)
        requires
            old(self).well_formed(),
            !old(self)@.dom().contains(id@),
        ensures
            final(self).well_formed(),
            final(self)@ == old(self)@.insert(id@, container@),
    {
        let ghost before = *self;
        self.ids.push(id);
        self.containers.push(container);
        proof {
            let n = before.ids@.len() as int;
            assert forall|i: int, j: int| 0 <= i < j < self.ids@.len() implies (
            #[trigger] self.ids@[i])@ != (#[trigger] self.ids@[j])@ by {
                if j == n {
                    assert(before.ids@[i]@ == self.ids@[i]@);
                    assert(before.holds(self.ids@[i]@));
                } else {
                    assert(before.ids@[i]@ != before.ids@[j]@);
                }
            }
            assert(self.well_formed());
            assert forall|key: Seq<char>| #[trigger]
                self@.dom().contains(key) == before@.insert(id@, container@).dom().contains(
                    key,
                ) by {
                if self.holds(key) {
                    let i = self.index_of(key);
                    if i < n {
                        assert(before.ids@[i]@ == key);
                    }
                }
                if before.holds(key) {
                    let i = before.index_of(key);
                    assert(self.ids@[i]@ == key);
                }
                if key == id@ {
                    assert(self.ids@[n]@ == key);
                }
            }
            assert forall|key: Seq<char>| #[trigger] self@.dom().contains(key) implies self@[key]
                == before@.insert(id@, container@)[key] by {
                let i = self.index_of(key);
                self.lemma_entry(i);
                if i < n {
                    assert(before.ids@[i]@ == key);
                    before.lemma_entry(i);
                }
            }
            assert(self@ =~= before@.insert(id@, container@));
        }
    }

    /// Extends the container with the identity `id` by `event`, as
    /// `Container::extend_imr` does. Without such a container this is
    /// `NotFound`. An event without digests asks nothing of the digest
    /// engine and so cannot fail for its sake.
    pub fn extend(&mut self, id: &str, imr_index: u32, event: TcgEventlog) -> (done: Result<
        (),
        Error,
    >)
        requires
            old(self).well_formed(),
        ensures
            final(self).well_formed(),
            done is Ok ==> old(self)@.dom().contains(id@) && extendable(old(self)@[id@], event@)
                && final(self)@ == old(self)@.insert(
                id@,
                extended(old(self)@[id@], imr_index, event@),
            ) && extended(old(self)@[id@], imr_index, event@).imr.well_formed(),
            done is Err ==> final(self)@ == old(self)@,
            !old(self)@.dom().contains(id@) ==> done == Err::<(), Error>(Error::NotFound),
            old(self)@.dom().contains(id@) && !extendable(old(self)@[id@], event@) ==> done
                == Err::<(), Error>(Error::AlgorithmMismatch),
            old(self)@.dom().contains(id@) && extendable(old(self)@[id@], event@) ==> done is Ok
                || (done == Err::<(), Error>(Error::HashError) && event@.digests.len() > 0),
            old(self)@.dom().contains(id@) && extendable(old(self)@[id@], event@)
                && event@.digests.len() == 0 ==> done is Ok,
    {
        let ghost before = *self;
        let at = match self.position(id) {
            Some(at) => at,
            None => { return Err(Error::NotFound); },
        };
        let done = self.containers[at].extend_imr(imr_index, event);
        proof {
            assert(self.ids == before.ids);
            assert(self.containers@.len() == before.containers@.len());
            assert(forall|k: int|
                0 <= k < self.containers@.len() && k != at ==> self.containers@[k]
                    == before.containers@[k]);
            assert(self.well_formed());
            let after = before@.insert(id@, self.containers@[at as int]@);
            assert forall|key: Seq<char>| #[trigger]
                self@.dom().contains(key) == after.dom().contains(key) by {
                if self.holds(key) {
                    let i = self.index_of(key);
                    assert(before.ids@[i]@ == key);
                }
                if before.holds(key) {
                    let i = before.index_of(key);
                    assert(self.ids@[i]@ == key);
                }
                if key == id@ {
                    assert(self.ids@[at as int]@ == key);
                }
            }
            assert forall|key: Seq<char>| #[trigger] self@.dom().contains(key) implies self@[key]
                == after[key] by {
                let i = self.index_of(key);
                self.lemma_entry(i);
                before.lemma_entry(i);
                self.lemma_entry(at as int);
            }
            assert(self@ =~= after);
            if done is Err {
                before.lemma_entry(at as int);
                assert(after =~= before@);
            }
        }
        done
    }
}

} // verus!
