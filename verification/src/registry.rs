//! The connection registry: a mapping from caller-chosen connection
//! identifiers to open sockets.
//!
//! The registry is the only shared state of the design.  It is modelled as a
//! finite map from identifier (a sequence of characters) to socket; the
//! surrounding application wraps one registry value in its own
//! mutual-exclusion lock and holds that lock only across `insert`, `lookup`
//! and `remove`, never across network I/O.
//!
//! `insert` hands back the socket it displaced, if any, so that the caller
//! can close it gracefully: a second registration under the same identifier
//! never leaks the first socket.

use vstd::prelude::*;

verus! {

/// True when every identifier occurs at most once.
pub open spec fn ids_distinct(ids: Seq<String>) -> bool {
    forall|i: int, j: int| 0 <= i < j < ids.len() ==> ids[i]@ != ids[j]@
}

/// True when some entry holds the identifier `k`.
pub open spec fn has_id(ids: Seq<String>, k: Seq<char>) -> bool {
    exists|i: int| 0 <= i < ids.len() && ids[i]@ == k
}

/// The index of the entry holding `k`.
pub open spec fn idx_of(ids: Seq<String>, k: Seq<char>) -> int {
    choose|i: int| 0 <= i < ids.len() && ids[i]@ == k
}

/// With distinct identifiers, the index holding `k` is unique.
proof fn lemma_idx_unique(ids: Seq<String>, k: Seq<char>, i: int)
    requires
        ids_distinct(ids),
        0 <= i < ids.len(),
        ids[i]@ == k,
    ensures
        has_id(ids, k),
        idx_of(ids, k) == i,
{
    assert(has_id(ids, k));
    let j = idx_of(ids, k);
    assert(0 <= j < ids.len() && ids[j]@ == k);
    if i < j {
        assert(ids[i]@ != ids[j]@);
    } else if j < i {
        assert(ids[j]@ != ids[i]@);
    }
}

/// The registry: one socket per identifier, identifiers distinct.
///
/// The socket type is a parameter: the application instantiates it with its
/// transport's socket type, the proofs hold for every choice of it.
pub struct Registry<T> {
    ids: Vec<String>,
    socks: Vec<T>,
}

impl<T> View for Registry<T> {
    type V = Map<Seq<char>, T>;

    closed spec fn view(&self) -> Map<Seq<char>, T> {
        Map::new(
            |k: Seq<char>| has_id(self.ids@, k),
            |k: Seq<char>| self.socks@[idx_of(self.ids@, k)],
        )
    }
}

impl<T> Registry<T> {
    /// Well-formed: one socket per identifier, identifiers distinct.
    pub closed spec fn wf(&self) -> bool {
        &&& self.ids@.len() == self.socks@.len()
        &&& ids_distinct(self.ids@)
    }

    /// A registry starts empty.
    pub fn new() -> (r: Registry<T>)
        ensures
            r.wf(),
            r@ =~= Map::<Seq<char>, T>::empty(),
    {
        let r = Registry { ids: Vec::new(), socks: Vec::new() };
        proof {
            assert forall|k: Seq<char>| !r@.dom().contains(k) by {
                assert(!has_id(r.ids@, k));
            }
            assert(r@.dom() =~= Set::<Seq<char>>::empty());
        }
        r
    }

    /// The index of the entry registered under `id`, if any.
    fn find(&self, id: &String) -> (r: Option<usize>)
        requires
            self.wf(),
        ensures
            match r {
                Some(i) => i < self.ids@.len() && self.ids@[i as int]@ == id@,
                None => !has_id(self.ids@, id@),
            },
    {
        let n = self.ids.len();
        let mut i: usize = 0;
        while i < n
            invariant
                n == self.ids@.len(),
                i <= n,
                forall|j: int| 0 <= j < i ==> self.ids@[j]@ != id@,
            decreases n - i,
        {
            if self.ids[i] == *id {
                return Some(i);
            }
            i = i + 1;
        }
        None
    }

    /// Whether a socket is registered under `id`.
    pub fn contains(&self, id: &String) -> (r: bool)
        requires
            self.wf(),
        ensures
            r == self@.dom().contains(id@),
    {
        self.find(id).is_some()
    }

    /// A borrow of the socket registered under `id`, for the duration of one
    /// exchange; absent identifiers yield `None`.
    pub fn lookup(&self, id: &String) -> (r: Option<&T>)
        requires
            self.wf(),
        ensures
            match r {
                Some(s) => self@.dom().contains(id@) && *s == self@[id@],
                None => !self@.dom().contains(id@),
            },
    {
        match self.find(id) {
            Some(i) => {
                proof {
                    lemma_idx_unique(self.ids@, id@, i as int);
                }
                Some(&self.socks[i])
            },
            None => None,
        }
    }

    /// Registers `sock` under `id`, returning the socket it displaced, if
    /// any, so the caller can close it: exactly one socket stays registered
    /// under `id`.
    pub fn insert(&mut self, id: String, sock: T) -> (prior: Option<T>)
        requires
            old(self).wf(),
        ensures
            final(self).wf(),
            final(self)@ =~= old(self)@.insert(id@, sock),
            match prior {
                Some(p) => old(self)@.dom().contains(id@) && p == old(self)@[id@],
                None => !old(self)@.dom().contains(id@),
            },
    {
        match self.find(&id) {
            Some(i) => {
                let ghost old_ids = self.ids@;
                let ghost old_socks = self.socks@;
                proof {
                    lemma_idx_unique(old_ids, id@, i as int);
                }
                let prior = self.socks.remove(i);
                self.socks.insert(i, sock);
                proof {
                    old_socks.remove_ensures(i as int);
                    old_socks.remove(i as int).insert_ensures(i as int, sock);
                    assert(self.socks@.len() == old_socks.len());
                    assert forall|m: int| 0 <= m < old_socks.len() && m != i implies
                        self.socks@[m] == old_socks[m] by {}
                    assert(self.socks@[i as int] == sock);
                    assert forall|k: Seq<char>|
                        final(self)@.dom().contains(k) == old(self)@.insert(id@, sock).dom().contains(k) by {
                        if k == id@ {
                            assert(has_id(old_ids, k));
                        }
                    }
                    assert forall|k: Seq<char>| final(self)@.dom().contains(k) implies
                        final(self)@[k] == old(self)@.insert(id@, sock)[k] by {
                        if k == id@ {
                            lemma_idx_unique(old_ids, id@, i as int);
                        } else {
                            let j = idx_of(old_ids, k);
                            assert(0 <= j < old_ids.len() && old_ids[j]@ == k);
                            assert(j != i);
                        }
                    }
                }
                Some(prior)
            },
            None => {
                let ghost old_ids = self.ids@;
                let ghost old_socks = self.socks@;
                let ghost idv = id@;
                self.ids.push(id);
                self.socks.push(sock);
                proof {
                    assert(self.ids@ == old_ids.push(id));
                    assert forall|i: int, j: int|
                        0 <= i < j < self.ids@.len() implies self.ids@[i]@ != self.ids@[j]@ by {
                        if j == old_ids.len() as int {
                            assert(self.ids@[j]@ == idv);
                            assert(self.ids@[i]@ == old_ids[i]@);
                        }
                    }
                    assert forall|k: Seq<char>|
                        final(self)@.dom().contains(k) == old(self)@.insert(idv, sock).dom().contains(k) by {
                        if k == idv {
                            assert(self.ids@[old_ids.len() as int]@ == idv);
                            assert(has_id(self.ids@, k));
                        } else {
                            if has_id(self.ids@, k) {
                                let j = idx_of(self.ids@, k);
                                assert(0 <= j < self.ids@.len() && self.ids@[j]@ == k);
                                assert(j != old_ids.len() as int);
                                assert(old_ids[j]@ == k);
                                assert(has_id(old_ids, k));
                            }
                            if has_id(old_ids, k) {
                                let j = idx_of(old_ids, k);
                                assert(self.ids@[j]@ == k);
                                assert(has_id(self.ids@, k));
                            }
                        }
                    }
                    assert forall|k: Seq<char>| final(self)@.dom().contains(k) implies
                        final(self)@[k] == old(self)@.insert(idv, sock)[k] by {
                        if k == idv {
                            lemma_idx_unique(self.ids@, idv, old_ids.len() as int);
                        } else {
                            let j = idx_of(self.ids@, k);
                            assert(0 <= j < self.ids@.len() && self.ids@[j]@ == k);
                            assert(j != old_ids.len() as int);
                            lemma_idx_unique(old_ids, k, j);
                            lemma_idx_unique(self.ids@, k, j);
                        }
                    }
                }
                None
            },
        }
    }

    /// Removes and returns the socket registered under `id`; the caller is
    /// responsible for closing it gracefully.
    pub fn remove(&mut self, id: &String) -> (r: Option<T>)
        requires
            old(self).wf(),
        ensures
            final(self).wf(),
            final(self)@ =~= old(self)@.remove(id@),
            match r {
                Some(s) => old(self)@.dom().contains(id@) && s == old(self)@[id@],
                None => !old(self)@.dom().contains(id@),
            },
    {
        match self.find(id) {
            Some(i) => {
                let ghost old_ids = self.ids@;
                let ghost old_socks = self.socks@;
                proof {
                    lemma_idx_unique(old_ids, id@, i as int);
                }
                let _ = self.ids.remove(i);
                let sock = self.socks.remove(i);
                proof {
                    old_ids.remove_ensures(i as int);
                    old_socks.remove_ensures(i as int);
                    assert forall|m: int, n: int|
                        0 <= m < n < self.ids@.len() implies self.ids@[m]@ != self.ids@[n]@ by {
                        let om = if m < i as int { m } else { m + 1 };
                        let on = if n < i as int { n } else { n + 1 };
                        assert(self.ids@[m]@ == old_ids[om]@);
                        assert(self.ids@[n]@ == old_ids[on]@);
                        assert(old_ids[om]@ != old_ids[on]@);
                    }
                    assert forall|k: Seq<char>|
                        final(self)@.dom().contains(k) == old(self)@.remove(id@).dom().contains(k) by {
                        if k == id@ {
                            if has_id(self.ids@, k) {
                                let j = idx_of(self.ids@, k);
                                let oj = if j < i as int { j } else { j + 1 };
                                assert(self.ids@[j]@ == old_ids[oj]@);
                                assert(oj != i as int);
                                assert(old_ids[oj]@ != old_ids[i as int]@);
                            }
                        } else {
                            if has_id(self.ids@, k) {
                                let j = idx_of(self.ids@, k);
                                let oj = if j < i as int { j } else { j + 1 };
                                assert(old_ids[oj]@ == k);
                                assert(has_id(old_ids, k));
                            }
                            if has_id(old_ids, k) {
                                let j = idx_of(old_ids, k);
                                assert(old_ids[j]@ == k);
                                assert(j != i as int);
                                let nj = if j < i as int { j } else { j - 1 };
                                assert(self.ids@[nj]@ == old_ids[j]@);
                                assert(has_id(self.ids@, k));
                            }
                        }
                    }
                    assert forall|k: Seq<char>| final(self)@.dom().contains(k) implies
                        final(self)@[k] == old(self)@.remove(id@)[k] by {
                        let j = idx_of(self.ids@, k);
                        assert(0 <= j < self.ids@.len() && self.ids@[j]@ == k);
                        let oj = if j < i as int { j } else { j + 1 };
                        assert(self.ids@[j]@ == old_ids[oj]@);
                        assert(self.socks@[j] == old_socks[oj]);
                        lemma_idx_unique(old_ids, k, oj);
                    }
                }
                Some(sock)
            },
            None => {
                proof {
                    assert forall|k: Seq<char>|
                        final(self)@.dom().contains(k) == old(self)@.remove(id@).dom().contains(k) by {}
                }
                None
            },
        }
    }
}

/// After a socket is registered under an identifier, that identifier is
/// present and maps to it; after its removal the identifier is absent.
pub proof fn lemma_register_then_lookup<T>(m: Map<Seq<char>, T>, id: Seq<char>, sock: T)
    ensures
        m.insert(id, sock).dom().contains(id),
        m.insert(id, sock)[id] == sock,
        !m.insert(id, sock).remove(id).dom().contains(id),
        !m.remove(id).dom().contains(id),
{
}

/// Exchanges on different identifiers are independent: registering or
/// removing under one identifier leaves whether the other is present, and
/// what it maps to, unchanged.
pub proof fn lemma_identifiers_independent<T>(
    m: Map<Seq<char>, T>,
    id1: Seq<char>,
    id2: Seq<char>,
    s: T,
)
    requires
        id1 != id2,
    ensures
        m.insert(id1, s).dom().contains(id2) == m.dom().contains(id2),
        m.dom().contains(id2) ==> m.insert(id1, s)[id2] == m[id2],
        m.remove(id1).dom().contains(id2) == m.dom().contains(id2),
        m.dom().contains(id2) ==> m.remove(id1)[id2] == m[id2],
{
}

/// Two registrations under one identifier leave exactly the later socket
/// registered: the registry after both equals the registry after the later
/// one alone, and the identifier maps to the later socket.  The earlier
/// socket is handed back by the second `insert` for closing, never leaked.
pub proof fn lemma_reregister_keeps_one<T>(m: Map<Seq<char>, T>, id: Seq<char>, s1: T, s2: T)
    ensures
        m.insert(id, s1).insert(id, s2) =~= m.insert(id, s2),
        m.insert(id, s1).insert(id, s2)[id] == s2,
        m.insert(id, s1)[id] == s1,
{
}

} // verus!
