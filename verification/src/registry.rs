//! The watch registry: the set of active subscriptions, keyed by an
//! externally supplied watch id. Ids are unique among active watches; the
//! registry keeps insertion order. Every mutation reports exactly when it
//! succeeds, so that the caller can keep the operating-system subscription
//! set in lockstep with it.

use vstd::prelude::*;

verus! {

/// One active subscription: an immutable id and the canonical root of the
/// subtree it monitors.
#[derive(Debug)]
pub struct Watch {
    pub id: usize,
    pub root: Vec<u8>,
}

/// Mathematical model of a watch.
pub struct WatchModel {
    pub id: usize,
    pub root: Seq<u8>,
}

impl View for Watch {
    type V = WatchModel;

    open spec fn view(&self) -> WatchModel {
        WatchModel { id: self.id, root: self.root@ }
    }
}

/// Why a registry mutation was refused.
#[derive(Debug, Clone, Copy, PartialEq, Eq)]
pub enum RegistryError {
    AlreadyRegistered,
    UnknownWatchId,
}

/// Whether some watch in `s` has the given id.
pub open spec fn contains_id(s: Seq<WatchModel>, id: usize) -> bool {
    exists|i: int| 0 <= i < s.len() && s[i].id == id
}

/// No two watches in `s` share an id.
pub open spec fn ids_unique(s: Seq<WatchModel>) -> bool {
    forall|i: int, j: int| 0 <= i < j < s.len() ==> s[i].id != s[j].id
}

/// The position of the watch with the given id; meaningful only when
/// `contains_id` holds, and unique when `ids_unique` holds.
pub open spec fn index_of_id(s: Seq<WatchModel>, id: usize) -> int {
    choose|i: int| 0 <= i < s.len() && s[i].id == id
}

/// With unique ids, any position holding `id` is the one `index_of_id` picks.
pub proof fn lemma_index_of_id_unique(s: Seq<WatchModel>, id: usize, i: int)
    requires
        ids_unique(s),
        0 <= i < s.len(),
        s[i].id == id,
    ensures
        index_of_id(s, id) == i,
{
    assert(contains_id(s, id));
    let c = index_of_id(s, id);
    if c != i {
        if c < i {
            assert(s[c].id != s[i].id);
        } else {
            assert(s[i].id != s[c].id);
        }
    }
}

/// Appending a watch whose id is not yet present keeps ids unique.
pub proof fn lemma_push_fresh_id_unique(s: Seq<WatchModel>, w: WatchModel)
    requires
        ids_unique(s),
        !contains_id(s, w.id),
    ensures
        ids_unique(s.push(w)),
{
    let s1 = s.push(w);
    assert forall|i: int, j: int| 0 <= i < j < s1.len() implies s1[i].id != s1[j].id by {
        if j < s.len() {
            assert(s[i].id != s[j].id);
        } else {
            assert(s1[j].id == w.id);
            assert(s[i].id != w.id);
        }
    }
}

/// Registry of active watches, in insertion order, with unique ids.
pub struct Registry {
    watches: Vec<Watch>,
}

impl View for Registry {
    type V = Seq<WatchModel>;

    closed spec fn view(&self) -> Seq<WatchModel> {
        self.watches@.map_values(|w: Watch| w@)
    }
}

impl Registry {
    /// The registry's invariant: active ids are unique.
    pub open spec fn wf(&self) -> bool {
        ids_unique(self@)
    }

    /// An empty registry.
    pub fn new() -> (r: Registry)
        ensures
            r@ == Seq::<WatchModel>::empty(),
            r.wf(),
    {
        let r = Registry { watches: Vec::new() };
        proof {
            assert(r@ =~= Seq::<WatchModel>::empty());
        }
        r
    }

    /// How many watches are active.
    pub fn len(&self) -> (n: usize)
        ensures
            n == self@.len(),
    {
        self.watches.len()
    }

    /// The watch at a position, in insertion order.
    pub fn watch_at(&self, i: usize) -> (w: &Watch)
        requires
            i < self@.len(),
        ensures
            w@ == self@[i as int],
    {
        &self.watches[i]
    }

    /// Whether a watch with the given id is active.
    pub fn contains(&self, id: usize) -> (r: bool)
        ensures
            r == contains_id(self@, id),
    {
        let mut i: usize = 0;
        let n = self.watches.len();
        while i < n
            invariant
                i <= n,
                n == self@.len(),
                self@.len() == self.watches@.len(),
                forall|j: int| 0 <= j < self@.len() ==> self@[j] == self.watches@[j]@,
                forall|j: int| 0 <= j < i ==> self@[j].id != id,
            decreases n - i,
        {
            if self.watches[i].id == id {
                proof {
                    assert(self@[i as int].id == id);
                }
                return true;
            }
            i += 1;
        }
        false
    }

    /// Adds a watch. Fails with `AlreadyRegistered`, leaving the registry
    /// unchanged, exactly when the id is already active; otherwise appends
    /// the new watch.
    pub fn insert(&mut self, id: usize, root: Vec<u8>) -> (r: Result<(), RegistryError>)
        requires
            old(self).wf(),
        ensures
            final(self).wf(),
            contains_id(old(self)@, id) ==> r == Err::<(), RegistryError>(
                RegistryError::AlreadyRegistered,
            ) && final(self)@ == old(self)@,
            !contains_id(old(self)@, id) ==> r == Ok::<(), RegistryError>(()) && final(self)@
                == old(self)@.push((WatchModel { id, root: root@ })),
    {
        if self.contains(id) {
            return Err(RegistryError::AlreadyRegistered);
        }
        let ghost s0 = self@;
        self.watches.push(Watch { id, root });
        proof {
            assert(self@ =~= s0.push((WatchModel { id, root: root@ })));
            lemma_push_fresh_id_unique(s0, WatchModel { id, root: root@ });
        }
        Ok(())
    }

    /// Removes the watch with the given id and hands back its root. Fails
    /// with `UnknownWatchId`, leaving the registry unchanged, exactly when no
    /// such watch is active.
    pub fn remove(&mut self, id: usize) -> (r: Result<Vec<u8>, RegistryError>)
        requires
            old(self).wf(),
        ensures
            final(self).wf(),
            !contains_id(old(self)@, id) ==> r == Err::<Vec<u8>, RegistryError>(
                RegistryError::UnknownWatchId,
            ) && final(self)@ == old(self)@,
            contains_id(old(self)@, id) ==> ({
                let at = index_of_id(old(self)@, id);
                match r {
                    Ok(root) => root@ == old(self)@[at].root && final(self)@ == old(self)@.remove(
                        at,
                    ),
                    Err(_) => false,
                }
            }),
    {
        let ghost s0 = self@;
        let mut i: usize = 0;
        let n = self.watches.len();
        while i < n
            invariant
                i <= n,
                n == self@.len(),
                self@.len() == self.watches@.len(),
                forall|j: int| 0 <= j < self@.len() ==> self@[j] == self.watches@[j]@,
                forall|j: int| 0 <= j < i ==> self@[j].id != id,
                self@ == s0,
                old(self)@ == s0,
                ids_unique(s0),
            decreases n - i,
        {
            if self.watches[i].id == id {
                proof {
                    assert(s0[i as int].id == id);
                    lemma_index_of_id_unique(s0, id, i as int);
                }
                let ghost ws0 = self.watches@;
                let w = self.watches.remove(i);
                proof {
                    assert(w == ws0[i as int]);
                    assert(w@ == s0[i as int]);
                    assert(w.root@ == s0[i as int].root);
                    assert(self.watches@ == ws0.remove(i as int));
                    assert forall|k: int| 0 <= k < self@.len() implies self@[k] == s0.remove(
                        i as int,
                    )[k] by {
                        assert(self@[k] == self.watches@[k]@);
                        if k < i {
                            assert(self.watches@[k] == ws0[k]);
                            assert(s0.remove(i as int)[k] == s0[k]);
                        } else {
                            assert(self.watches@[k] == ws0[k + 1]);
                            assert(s0.remove(i as int)[k] == s0[k + 1]);
                        }
                    }
                    assert(self@ =~= s0.remove(i as int));
                    assert forall|a: int, b: int| 0 <= a < b < self@.len() implies self@[a].id
                        != self@[b].id by {
                        let a0 = if a < i { a } else { a + 1 };
                        let b0 = if b < i { b } else { b + 1 };
                        assert(self@[a] == s0[a0]);
                        assert(self@[b] == s0[b0]);
                        assert(s0[a0].id != s0[b0].id);
                    }
                }
                return Ok(w.root);
            }
            i += 1;
        }
        proof {
            assert(!contains_id(s0, id));
        }
        Err(RegistryError::UnknownWatchId)
    }
}

} // verus!
