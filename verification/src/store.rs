//! Entity/component store and the deferred despawn buffer.
//!
//! Entities live in one vector, in spawn order; an entity identifier is
//! never handed out twice by the same store. Systems never remove
//! entities while they scan: they queue identifiers in a
//! `CommandBuffer`, and the scheduler flushes the buffer between
//! stages, which removes exactly the queued entities.

use vstd::prelude::*;

verus! {

use crate::components::{Components, components_wf};

/// One stored entity: its identifier with its component set.
#[derive(Clone, Copy)]
pub struct Ent {
    pub id: u64,
    pub comps: Components,
}

/// Opaque entity identifier handed to callers.
#[derive(Clone, Copy, Debug, PartialEq, Eq, Structural)]
pub struct Entity {
    pub id: u64,
}

/// No two stored entities share an identifier.
pub open spec fn unique_ids(s: Seq<Ent>) -> bool {
    forall|i: int, j: int| 0 <= i < j < s.len() ==> s[i].id != s[j].id
}

/// Some stored entity has the identifier.
pub open spec fn has_live(s: Seq<Ent>, id: u64) -> bool {
    exists|i: int| 0 <= i < s.len() && s[i].id == id
}

/// Every stored component set meets the machine bounds.
pub open spec fn all_wf(s: Seq<Ent>) -> bool {
    forall|i: int| 0 <= i < s.len() ==> components_wf(s[i].comps)
}

/// Every stored identifier is below the allocator's next one.
pub open spec fn ids_below(s: Seq<Ent>, n: u64) -> bool {
    forall|i: int| 0 <= i < s.len() ==> s[i].id < n
}

/// Pushing an element extends a prefix of the sequence by one.
pub proof fn lemma_take_push<A>(s: Seq<A>, k: int)
    requires
        0 <= k < s.len(),
    ensures
        s.take(k + 1) == s.take(k).push(s[k]),
{
    assert(s.take(k + 1) =~= s.take(k).push(s[k]));
}

/// What a pushed sequence contains.
pub proof fn lemma_push_contains<A>(s: Seq<A>, x: A)
    ensures
        forall|y: A| #[trigger] s.push(x).contains(y) <==> s.contains(y) || y == x,
{
    assert forall|y: A| #[trigger] s.push(x).contains(y) <==> s.contains(y) || y == x by {
        if s.push(x).contains(y) {
            let i = choose|i: int| 0 <= i < s.push(x).len() && s.push(x)[i] == y;
            if i < s.len() {
                assert(s[i] == y);
            }
        }
        if s.contains(y) {
            let i = choose|i: int| 0 <= i < s.len() && s[i] == y;
            assert(s.push(x)[i] == y);
        }
        if y == x {
            assert(s.push(x)[s.len() as int] == x);
        }
    }
}

/// Everything a filtered sequence contains was in the sequence.
pub proof fn lemma_filter_contains<A>(s: Seq<A>, p: spec_fn(A) -> bool)
    ensures
        forall|x: A| #[trigger] s.filter(p).contains(x) ==> s.contains(x),
    decreases s.len(),
{
    reveal(Seq::filter);
    if s.len() > 0 {
        let dl = s.drop_last();
        lemma_filter_contains(dl, p);
        if p(s.last()) {
            lemma_push_contains(dl.filter(p), s.last());
        }
        assert forall|x: A| #[trigger] s.filter(p).contains(x) implies s.contains(x) by {
            if dl.contains(x) {
                let i = choose|i: int| 0 <= i < dl.len() && dl[i] == x;
                assert(s[i] == x);
            } else {
                assert(s[s.len() - 1] == s.last());
            }
        }
    }
}

/// A filter whose predicate holds everywhere keeps the sequence.
pub proof fn lemma_filter_all_true<A>(s: Seq<A>, p: spec_fn(A) -> bool)
    requires
        forall|i: int| 0 <= i < s.len() ==> p(#[trigger] s[i]),
    ensures
        s.filter(p) == s,
    decreases s.len(),
{
    reveal(Seq::filter);
    if s.len() > 0 {
        let dl = s.drop_last();
        assert(forall|i: int| 0 <= i < dl.len() ==> p(#[trigger] dl[i]));
        lemma_filter_all_true(dl, p);
        assert(p(s.last()));
        assert(s.filter(p) == dl.filter(p).push(s.last()));
        assert(dl.push(s.last()) =~= s);
    }
}

/// Two predicates that agree on the elements filter alike.
pub proof fn lemma_filter_agree<A>(s: Seq<A>, p: spec_fn(A) -> bool, q: spec_fn(A) -> bool)
    requires
        forall|i: int| 0 <= i < s.len() ==> p(#[trigger] s[i]) == q(s[i]),
    ensures
        s.filter(p) == s.filter(q),
    decreases s.len(),
{
    reveal(Seq::filter);
    if s.len() > 0 {
        let dl = s.drop_last();
        assert(forall|i: int| 0 <= i < dl.len() ==> p(#[trigger] dl[i]) == q(dl[i]));
        lemma_filter_agree(dl, p, q);
        assert(p(s.last()) == q(s.last()));
    }
}

/// Filtering twice filters by the conjunction.
pub proof fn lemma_filter_compose<A>(s: Seq<A>, p: spec_fn(A) -> bool, q: spec_fn(A) -> bool)
    ensures
        s.filter(p).filter(q) == s.filter(|x: A| p(x) && q(x)),
    decreases s.len(),
{
    reveal(Seq::filter);
    let pq = |x: A| p(x) && q(x);
    if s.len() == 0 {
        assert(s.filter(p) =~= Seq::<A>::empty());
    } else {
        let dl = s.drop_last();
        lemma_filter_compose(dl, p, q);
        if p(s.last()) {
            assert(s.filter(p) == dl.filter(p).push(s.last()));
            assert(dl.filter(p).push(s.last()).drop_last() == dl.filter(p));
            assert(dl.filter(p).push(s.last()).last() == s.last());
        } else {
            assert(s.filter(p) == dl.filter(p));
        }
    }
}

/// Filtering keeps uniqueness, well-formedness and the identifier bound.
pub proof fn lemma_filter_keeps_inv(s: Seq<Ent>, p: spec_fn(Ent) -> bool, n: u64)
    requires
        unique_ids(s),
        all_wf(s),
        ids_below(s, n),
    ensures
        unique_ids(s.filter(p)),
        all_wf(s.filter(p)),
        ids_below(s.filter(p), n),
{
    let f = s.filter(p);
    lemma_filter_contains(s, p);
    assert forall|i: int| 0 <= i < f.len() implies components_wf(f[i].comps) && f[i].id < n by {
        assert(f.contains(f[i]));
        let k = choose|k: int| 0 <= k < s.len() && s[k] == f[i];
    }
    assert forall|i: int, j: int| 0 <= i < j < f.len() implies f[i].id != f[j].id by {
        s.lemma_filter_len(p);
        lemma_filter_distinct(s, p, i, j);
    }
}

/// Distinct positions of a filtered sequence come from distinct
/// positions of the original, in order.
proof fn lemma_filter_distinct(s: Seq<Ent>, p: spec_fn(Ent) -> bool, i: int, j: int)
    requires
        unique_ids(s),
        0 <= i < j < s.filter(p).len() <= s.len(),
    ensures
        s.filter(p)[i].id != s.filter(p)[j].id,
    decreases s.len(),
{
    reveal(Seq::filter);
    let f = s.filter(p);
    let dl = s.drop_last();
    assert(s.len() > 0);
    assert(unique_ids(dl));
    dl.lemma_filter_len(p);
    if p(s.last()) {
        assert(f == dl.filter(p).push(s.last()));
        if j < f.len() - 1 {
            lemma_filter_distinct(dl, p, i, j);
        } else {
            // f[j] is s.last(); f[i] comes from dl, whose ids differ from it
            lemma_filter_contains(dl, p);
            assert(dl.filter(p).contains(dl.filter(p)[i]));
            let k = choose|k: int| 0 <= k < dl.len() && dl[k] == dl.filter(p)[i];
            assert(s[k] == dl[k]);
            assert(s[s.len() - 1] == s.last());
        }
    } else {
        assert(f == dl.filter(p));
        lemma_filter_distinct(dl, p, i, j);
    }
}

/// The identifiers of the entities that satisfy a predicate, in store
/// order.
pub open spec fn ids_where(s: Seq<Ent>, p: spec_fn(Ent) -> bool) -> Seq<u64>
    decreases s.len(),
{
    if s.len() == 0 {
        Seq::empty()
    } else {
        let rest = ids_where(s.drop_last(), p);
        if p(s.last()) {
            rest.push(s.last().id)
        } else {
            rest
        }
    }
}

/// What the identifier list of a predicate contains.
pub proof fn lemma_ids_where_contains(s: Seq<Ent>, p: spec_fn(Ent) -> bool)
    ensures
        forall|id: u64| #[trigger] ids_where(s, p).contains(id) <==> exists|i: int|
            0 <= i < s.len() && s[i].id == id && p(s[i]),
    decreases s.len(),
{
    if s.len() == 0 {
        assert forall|id: u64| !(#[trigger] ids_where(s, p).contains(id)) by {
            assert(ids_where(s, p).len() == 0);
        }
    } else {
        let dl = s.drop_last();
        lemma_ids_where_contains(dl, p);
        if p(s.last()) {
            lemma_push_contains(ids_where(dl, p), s.last().id);
        }
        assert forall|id: u64| #[trigger] ids_where(s, p).contains(id) <==> exists|i: int|
            0 <= i < s.len() && s[i].id == id && p(s[i]) by {
            if ids_where(s, p).contains(id) {
                if ids_where(dl, p).contains(id) {
                    let i = choose|i: int| 0 <= i < dl.len() && dl[i].id == id && p(dl[i]);
                    assert(s[i] == dl[i]);
                } else {
                    assert(p(s.last()) && s.last().id == id);
                    assert(s[s.len() - 1] == s.last());
                }
            }
            if exists|i: int| 0 <= i < s.len() && s[i].id == id && p(s[i]) {
                let i = choose|i: int| 0 <= i < s.len() && s[i].id == id && p(s[i]);
                if i < s.len() - 1 {
                    assert(dl[i] == s[i]);
                    assert(ids_where(dl, p).contains(id));
                } else {
                    assert(s[i] == s.last());
                }
            }
        }
    }
}

/// One step of scanning a sequence for matching identifiers.
pub proof fn lemma_ids_where_step(s: Seq<Ent>, p: spec_fn(Ent) -> bool, i: int)
    requires
        0 <= i < s.len(),
    ensures
        ids_where(s.take(i + 1), p) == if p(s[i]) {
            ids_where(s.take(i), p).push(s[i].id)
        } else {
            ids_where(s.take(i), p)
        },
{
    lemma_take_push(s, i);
    let t = s.take(i + 1);
    assert(t.drop_last() == s.take(i));
    assert(t.last() == s[i]);
}

/// The entity/component database. Entities are stored in spawn order;
/// `next_id` has never been handed out.
pub struct Store {
    pub ents: Vec<Ent>,
    pub next_id: u64,
}

impl Store {
    /// Store invariant: identifiers are unique and below `next_id`, and
    /// every component set meets the machine bounds.
    pub open spec fn wf(self) -> bool {
        unique_ids(self.ents@) && all_wf(self.ents@) && ids_below(self.ents@, self.next_id)
    }

    /// An empty store.
    pub fn new() -> (r: Self)
        ensures
            r.wf(),
            r.ents@ == Seq::<Ent>::empty(),
            r.next_id == 0,
    {
        Store { ents: Vec::new(), next_id: 0 }
    }

    /// Creates an entity holding `comps` and returns its fresh
    /// identifier.
    pub fn spawn(&mut self, comps: Components) -> (e: Entity)
        requires
            old(self).wf(),
            components_wf(comps),
            old(self).next_id < u64::MAX,
        ensures
            final(self).wf(),
            e.id == old(self).next_id,
            final(self).next_id == old(self).next_id + 1,
            final(self).ents@ == old(self).ents@.push(Ent { id: e.id, comps }),
    {
        let id = self.next_id;
        self.next_id = self.next_id + 1;
        self.ents.push(Ent { id, comps });
        Entity { id }
    }

    /// Removes the entity with this identifier, with all its
    /// components; does nothing when it is absent.
    pub fn despawn(&mut self, e: Entity)
        requires
            old(self).wf(),
        ensures
            final(self).wf(),
            final(self).next_id == old(self).next_id,
            final(self).ents@ == old(self).ents@.filter(|r: Ent| r.id != e.id),
    {
        let ghost orig = self.ents@;
        let ghost nid = old(self).next_id;
        let n = self.ents.len();
        let mut i: usize = 0;
        while i < n
            invariant
                0 <= i <= n,
                n == self.ents@.len(),
                orig == old(self).ents@,
                nid == old(self).next_id,
                self.ents@ == orig,
                self.wf(),
                self.next_id == nid,
                forall|k: int| 0 <= k < i ==> orig[k].id != e.id,
            decreases n - i,
        {
            if self.ents[i].id == e.id {
                self.ents.remove(i);
                proof {
                    reveal(Seq::filter);
                    let p = |r: Ent| r.id != e.id;
                    let j = i as int;
                    assert(forall|k: int| 0 <= k < j ==> orig.take(j)[k] == orig[k]);
                    assert(forall|k: int| 0 <= k < j ==> p(#[trigger] orig.take(j)[k]));
                    lemma_filter_all_true(orig.take(j), p);
                    lemma_take_push(orig, j);
                    let tj1 = orig.take(j + 1);
                    assert(tj1.drop_last() =~= orig.take(j));
                    assert(tj1.last() == orig[j]);
                    assert(!p(orig[j]));
                    assert(tj1.filter(p) == orig.take(j).filter(p));
                    assert(orig =~= tj1 + orig.skip(j + 1));
                    Seq::filter_distributes_over_add(tj1, orig.skip(j + 1), p);
                    assert(forall|k: int| 0 <= k < orig.skip(j + 1).len() ==> #[trigger] orig.skip(
                        j + 1,
                    )[k] == orig[k + j + 1]);
                    assert(forall|k: int| 0 <= k < orig.skip(j + 1).len() ==> p(
                        #[trigger] orig.skip(j + 1)[k]));
                    lemma_filter_all_true(orig.skip(j + 1), p);
                    assert(orig.remove(j) =~= orig.take(j) + orig.skip(j + 1));
                    assert(self.ents@ == orig.filter(p));
                    lemma_filter_keeps_inv(orig, p, self.next_id);
                }
                return ;
            }
            i = i + 1;
        }
        proof {
            lemma_filter_all_true(orig, |r: Ent| r.id != e.id);
        }
    }

    /// Whether an entity with this identifier is stored.
    pub fn entity_exists(&self, e: Entity) -> (r: bool)
        ensures
            r == has_live(self.ents@, e.id),
    {
        let n = self.ents.len();
        let mut i: usize = 0;
        while i < n
            invariant
                0 <= i <= n,
                n == self.ents@.len(),
                forall|k: int| 0 <= k < i ==> self.ents@[k].id != e.id,
            decreases n - i,
        {
            if self.ents[i].id == e.id {
                return true;
            }
            i = i + 1;
        }
        false
    }

    /// The component set of the entity with this identifier, when it is
    /// stored.
    pub fn get(&self, e: Entity) -> (r: Option<Components>)
        ensures
            r is Some <==> has_live(self.ents@, e.id),
            r is Some ==> exists|i: int|
                0 <= i < self.ents@.len() && self.ents@[i].id == e.id && r->0
                    == self.ents@[i].comps,
    {
        let n = self.ents.len();
        let mut i: usize = 0;
        while i < n
            invariant
                0 <= i <= n,
                n == self.ents@.len(),
                forall|k: int| 0 <= k < i ==> self.ents@[k].id != e.id,
            decreases n - i,
        {
            if self.ents[i].id == e.id {
                return Some(self.ents[i].comps);
            }
            i = i + 1;
        }
        None
    }

    /// Removes every entity. Identifiers are not reused afterwards.
    pub fn clear(&mut self)
        ensures
            final(self).wf(),
            final(self).ents@ == Seq::<Ent>::empty(),
            final(self).next_id == old(self).next_id,
    {
        self.ents = Vec::new();
    }
}

/// Deferred structural mutations: identifiers whose entities are to be
/// despawned at the next flush.
pub struct CommandBuffer {
    pub despawns: Vec<u64>,
}

impl CommandBuffer {
    /// An empty buffer.
    pub fn new() -> (r: Self)
        ensures
            r.despawns@ == Seq::<u64>::empty(),
    {
        CommandBuffer { despawns: Vec::new() }
    }

    /// Queues the entity for despawning at the next flush.
    pub fn queue_despawn(&mut self, e: Entity)
        ensures
            final(self).despawns@ == old(self).despawns@.push(e.id),
    {
        self.despawns.push(e.id);
    }

    /// Flushes the buffer: removes exactly the queued entities from the
    /// store and empties the buffer.
    pub fn apply(&mut self, store: &mut Store)
        requires
            old(store).wf(),
        ensures
            final(store).wf(),
            final(store).next_id == old(store).next_id,
            final(store).ents@ == old(store).ents@.filter(
                |r: Ent| !old(self).despawns@.contains(r.id),
            ),
            final(self).despawns@ == Seq::<u64>::empty(),
    {
        let ghost orig = store.ents@;
        let ghost all = self.despawns@;
        let ghost nid = store.next_id;
        let n = self.despawns.len();
        let mut k: usize = 0;
        proof {
            assert(all.take(0int) =~= Seq::<u64>::empty());
            lemma_filter_all_true(orig, |r: Ent| !all.take(0int).contains(r.id));
        }
        while k < n
            invariant
                0 <= k <= n,
                n == all.len(),
                orig == old(store).ents@,
                all == old(self).despawns@,
                nid == old(store).next_id,
                self.despawns@ == all,
                store.wf(),
                store.next_id == nid,
                store.ents@ == orig.filter(|r: Ent| !all.take(k as int).contains(r.id)),
            decreases n - k,
        {
            let ghost pk = |r: Ent| !all.take(k as int).contains(r.id);
            let ghost prev = store.ents@;
            let id = self.despawns[k];
            store.despawn(Entity { id });
            proof {
                let qk = |r: Ent| r.id != id;
                let both = |r: Ent| pk(r) && qk(r);
                let pk1 = |r: Ent| !all.take(k + 1 as int).contains(r.id);
                lemma_filter_compose(orig, pk, qk);
                lemma_take_push(all, k as int);
                lemma_push_contains(all.take(k as int), id);
                assert(forall|i: int| 0 <= i < orig.len() ==> both(#[trigger] orig[i]) == pk1(
                    orig[i]));
                lemma_filter_agree(orig, both, pk1);
                assert(store.ents@ == orig.filter(pk1));
            }
            k = k + 1;
        }
        proof {
            assert(all.take(n as int) =~= all);
        }
        self.despawns = Vec::new();
    }
}

} // verus!
