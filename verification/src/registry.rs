//! The tenant pool registry: a mapping from tenant identifier to that
//! tenant's pool handle, with at most one entry per tenant at any time.
//! Registration replaces an existing entry and hands the superseded pool
//! back; removal is idempotent; draining empties the registry and hands
//! every pool back, so the caller can release each one and none leaks.
//!
//! The pool handle type is a parameter: the registry owns the handles and
//! never looks inside them.

use vstd::prelude::*;

verus! {

/// Whether the tenant identifiers of `s` are pairwise distinct.
pub open spec fn keys_unique<P>(s: Seq<(String, P)>) -> bool {
    forall|i: int, j: int| 0 <= i < j < s.len() ==> s[i].0@ != s[j].0@
}

/// Whether some entry of `s` carries the tenant identifier `k`.
pub open spec fn has_key<P>(s: Seq<(String, P)>, k: Seq<char>) -> bool {
    exists|i: int| 0 <= i < s.len() && s[i].0@ == k
}

/// The position of the entry carrying `k` (meaningful when `has_key` holds
/// and the identifiers are distinct).
pub open spec fn index_of<P>(s: Seq<(String, P)>, k: Seq<char>) -> int {
    choose|i: int| 0 <= i < s.len() && s[i].0@ == k
}

/// The mathematical content of an entry sequence: the map from tenant
/// identifier to pool handle.
pub open spec fn entries_map<P>(s: Seq<(String, P)>) -> Map<Seq<char>, P> {
    Map::new(|k: Seq<char>| has_key(s, k), |k: Seq<char>| s[index_of(s, k)].1)
}

/// Maps each tenant identifier to its pool handle.
pub struct Registry<P> {
    entries: Vec<(String, P)>,
}

proof fn lemma_entry_value<P>(s: Seq<(String, P)>, k: Seq<char>, i: int)
    requires
        keys_unique(s),
        0 <= i < s.len(),
        s[i].0@ == k,
    ensures
        entries_map(s).contains_key(k),
        entries_map(s)[k] == s[i].1,
{
    assert(has_key(s, k));
    let j = index_of(s, k);
    assert(0 <= j < s.len() && s[j].0@ == k);
    if i != j {
        assert(false);
    }
}

proof fn lemma_map_push<P>(s: Seq<(String, P)>, e: (String, P))
    requires
        keys_unique(s),
        !has_key(s, e.0@),
    ensures
        keys_unique(s.push(e)),
        entries_map(s.push(e)) == entries_map(s).insert(e.0@, e.1),
{
    let t = s.push(e);
    assert forall|i: int, j: int| 0 <= i < j < t.len() implies t[i].0@ != t[j].0@ by {
        if j < s.len() {
            assert(t[i] == s[i] && t[j] == s[j]);
        } else {
            assert(t[j] == e);
            assert(t[i] == s[i]);
        }
    }
    assert forall|k: Seq<char>| #[trigger] has_key(t, k) implies has_key(s, k) || k == e.0@ by {
        let i = choose|i: int| 0 <= i < t.len() && t[i].0@ == k;
        if i < s.len() {
            assert(s[i].0@ == k);
        }
    }
    assert forall|k: Seq<char>| #[trigger] has_key(s, k) implies has_key(t, k) by {
        let i = choose|i: int| 0 <= i < s.len() && s[i].0@ == k;
        assert(t[i].0@ == k);
    }
    assert(t[s.len() as int].0@ == e.0@);
    assert(has_key(t, e.0@));
    assert forall|k: Seq<char>| #[trigger] has_key(t, k) implies entries_map(t)[k] == entries_map(
        s,
    ).insert(e.0@, e.1)[k] by {
        lemma_entry_value(t, k, index_of(t, k));
        if k == e.0@ {
            lemma_entry_value(t, k, s.len() as int);
        } else {
            let i = choose|i: int| 0 <= i < s.len() && s[i].0@ == k;
            assert(t[i].0@ == k);
            lemma_entry_value(t, k, i);
            lemma_entry_value(s, k, i);
        }
    }
    assert(entries_map(t) =~= entries_map(s).insert(e.0@, e.1));
}

proof fn lemma_map_remove<P>(s: Seq<(String, P)>, i: int)
    requires
        keys_unique(s),
        0 <= i < s.len(),
    ensures
        keys_unique(s.remove(i)),
        !has_key(s.remove(i), s[i].0@),
        entries_map(s.remove(i)) == entries_map(s).remove(s[i].0@),
{
    let t = s.remove(i);
    let k0 = s[i].0@;
    assert(t.len() == s.len() - 1);
    assert(forall|j: int| 0 <= j < i ==> #[trigger] t[j] == s[j]);
    assert(forall|j: int| i <= j < t.len() ==> #[trigger] t[j] == s[j + 1]);
    assert forall|a: int, b: int| 0 <= a < b < t.len() implies t[a].0@ != t[b].0@ by {
        let a2: int = if a < i { a } else { a + 1 };
        let b2: int = if b < i { b } else { b + 1 };
        assert(t[a] == s[a2] && t[b] == s[b2]);
    }
    assert forall|j: int| 0 <= j < t.len() implies t[j].0@ != k0 by {
        let j2: int = if j < i { j } else { j + 1 };
        assert(t[j] == s[j2]);
        assert(j2 != i);
    }
    assert(!has_key(t, k0));
    assert forall|k: Seq<char>| #[trigger] has_key(t, k) implies has_key(s, k) && k != k0 by {
        let j = choose|j: int| 0 <= j < t.len() && t[j].0@ == k;
        let j2: int = if j < i { j } else { j + 1 };
        assert(s[j2].0@ == k);
    }
    assert forall|k: Seq<char>| #[trigger] has_key(s, k) && k != k0 implies has_key(t, k) by {
        let j = choose|j: int| 0 <= j < s.len() && s[j].0@ == k;
        assert(j != i);
        if j < i {
            assert(t[j].0@ == k);
        } else {
            assert(t[j - 1].0@ == k);
        }
    }
    assert forall|k: Seq<char>| #[trigger] has_key(t, k) implies entries_map(t)[k] == entries_map(
        s,
    ).remove(k0)[k] by {
        let j = index_of(t, k);
        lemma_entry_value(t, k, j);
        let j2: int = if j < i { j } else { j + 1 };
        assert(t[j] == s[j2]);
        lemma_entry_value(s, k, j2);
    }
    assert(entries_map(t) =~= entries_map(s).remove(k0));
}

impl<P> Registry<P> {
    /// Well-formedness: one entry per tenant identifier.
    pub closed spec fn wf(&self) -> bool {
        keys_unique(self.entries@)
    }

    /// The pool handles currently held, in insertion order.
    pub closed spec fn handles(&self) -> Seq<P> {
        self.entries@.map_values(|e: (String, P)| e.1)
    }

    /// An empty registry: no tenant is linked.
    pub fn new() -> (r: Registry<P>)
        ensures
            r.wf(),
            r@ == Map::<Seq<char>, P>::empty(),
    {
        let r = Registry { entries: Vec::new() };
        proof {
            assert(r@ =~= Map::<Seq<char>, P>::empty());
        }
        r
    }

    fn find(&self, tenant: &String) -> (r: Option<usize>)
        ensures
            match r {
                Some(i) => i < self.entries@.len() && self.entries@[i as int].0@ == tenant@,
                None => !has_key(self.entries@, tenant@),
            },
    {
        let mut i: usize = 0;
        while i < self.entries.len()
            invariant
                i <= self.entries@.len(),
                forall|j: int| 0 <= j < i ==> self.entries@[j].0@ != tenant@,
            decreases self.entries@.len() - i,
        {
            let e = &self.entries[i];
            if e.0 == *tenant {
                return Some(i);
            }
            i += 1;
        }
        None
    }

    /// Resolves a tenant to its pool handle; fails exactly when the tenant
    /// is not linked. Reads only; the registry is unchanged.
    pub fn lookup(&self, tenant: &String) -> (r: Option<&P>)
        requires
            self.wf(),
        ensures
            match r {
                Some(p) => self@.contains_key(tenant@) && *p == self@[tenant@],
                None => !self@.contains_key(tenant@),
            },
    {
        match self.find(tenant) {
            Some(i) => {
                proof {
                    lemma_entry_value(self.entries@, tenant@, i as int);
                }
                Some(&self.entries[i].1)
            },
            None => None,
        }
    }

    /// Removes a tenant's entry and hands its pool back so the caller can
    /// release it. A no-op (and no error) when the tenant is not linked.
    pub fn unregister(&mut self, tenant: &String) -> (prev: Option<P>)
        requires
            old(self).wf(),
        ensures
            final(self).wf(),
            final(self)@ == old(self)@.remove(tenant@),
            prev is Some <==> old(self)@.contains_key(tenant@),
            prev matches Some(p) ==> p == old(self)@[tenant@],
            !old(self)@.contains_key(tenant@) ==> final(self)@ == old(self)@,
    {
        match self.find(tenant) {
            Some(i) => {
                proof {
                    lemma_entry_value(self.entries@, tenant@, i as int);
                    lemma_map_remove(self.entries@, i as int);
                }
                let e = self.entries.remove(i);
                Some(e.1)
            },
            None => {
                proof {
                    assert(!self@.contains_key(tenant@));
                    assert(self@.remove(tenant@) =~= self@);
                }
                None
            },
        }
    }

    /// Installs a tenant's pool, replacing any previous entry; the
    /// superseded pool, if any, is handed back so the caller can release it.
    pub fn register(&mut self, tenant: String, pool: P) -> (prev: Option<P>)
        requires
            old(self).wf(),
        ensures
            final(self).wf(),
            final(self)@ == old(self)@.insert(tenant@, pool),
            prev is Some <==> old(self)@.contains_key(tenant@),
            prev matches Some(p) ==> p == old(self)@[tenant@],
    {
        let ghost m0 = self@;
        let prev = self.unregister(&tenant);
        proof {
            assert(!self@.contains_key(tenant@));
            assert(!has_key(self.entries@, tenant@));
            lemma_map_push(self.entries@, (tenant, pool));
            assert(m0.remove(tenant@).insert(tenant@, pool) =~= m0.insert(tenant@, pool));
        }
        self.entries.push((tenant, pool));
        prev
    }

    /// Empties the registry and hands every pool back: afterwards no tenant
    /// resolves, and each pool that was registered is in the returned vector
    /// (and nothing else is), so the caller can release them all and no
    /// handle leaks.
    pub fn drain_all(&mut self) -> (pools: Vec<P>)
        requires
            old(self).wf(),
        ensures
            final(self).wf(),
            final(self)@ == Map::<Seq<char>, P>::empty(),
            forall|k: Seq<char>| old(self)@.contains_key(k) ==> exists|i: int|
                0 <= i < pools@.len() && pools@[i] == old(self)@[k],
            pools@ == old(self).handles().reverse(),
    {
        let ghost s0 = self.entries@;
        let mut pools: Vec<P> = Vec::new();
        while self.entries.len() > 0
            invariant
                keys_unique(s0),
                self.entries@ == s0.take(self.entries@.len() as int),
                pools@.len() + self.entries@.len() == s0.len(),
                forall|i: int| 0 <= i < pools@.len() ==> pools@[i] == s0[s0.len() - 1 - i].1,
            decreases self.entries@.len(),
        {
            let e = self.entries.pop().unwrap();
            pools.push(e.1);
            proof {
                assert(self.entries@ =~= s0.take(self.entries@.len() as int));
            }
        }
        proof {
            assert(self.entries@.len() == 0);
            assert(self@ =~= Map::<Seq<char>, P>::empty());
            assert(s0 == old(self).entries@);
            assert forall|k: Seq<char>| old(self)@.contains_key(k) implies exists|i: int|
                0 <= i < pools@.len() && pools@[i] == old(self)@[k] by {
                let j = index_of(s0, k);
                assert(0 <= j < s0.len() && s0[j].0@ == k);
                lemma_entry_value(s0, k, j);
                let i = s0.len() - 1 - j;
                assert(pools@[i] == s0[j].1);
            }
            assert(pools@ =~= s0.map_values(|e: (String, P)| e.1).reverse());
        }
        pools
    }
}

impl<P> View for Registry<P> {
    type V = Map<Seq<char>, P>;

    closed spec fn view(&self) -> Map<Seq<char>, P> {
        entries_map(self.entries@)
    }
}

/// After a link is established for a tenant, requests for that tenant
/// resolve to the installed pool rather than failing with `NotLinked`.
pub proof fn lemma_registered_tenant_resolves<P>(m: Map<Seq<char>, P>, t: Seq<char>, p: P)
    ensures
        m.insert(t, p).contains_key(t),
        m.insert(t, p)[t] == p,
{
}

/// After a link is removed, requests for that tenant fail with `NotLinked`
/// again: the registry no longer resolves it, whatever it held before.
pub proof fn lemma_unregistered_tenant_not_linked<P>(m: Map<Seq<char>, P>, t: Seq<char>)
    ensures
        !m.remove(t).contains_key(t),
{
}

/// Removing the link of a tenant that holds none is a no-op on the
/// registry, not an error: every other tenant's entry is untouched.
pub proof fn lemma_unregister_absent_is_noop<P>(m: Map<Seq<char>, P>, t: Seq<char>)
    requires
        !m.contains_key(t),
    ensures
        m.remove(t) == m,
{
    assert(m.remove(t) =~= m);
}

} // verus!
