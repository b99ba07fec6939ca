//! An overlay over a hash map: inserts, removals and edits are buffered
//! until the wrapper is committed or rolled back.

use std::collections::{HashMap, HashSet};
use std::hash::Hash;
use std::marker::PhantomData;
use vstd::pervasive::strictly_cloned;
use crate::sealed::Sealed;
use vstd::prelude::*;
use vstd::std_specs::hash::{obeys_key_model, spec_hash_keys_iter, spec_keys_iter};
use vstd::std_specs::iter::IteratorSpec;

verus! {

broadcast use vstd::std_specs::hash::group_hash_axioms;

/// What happens to a wrapper that is finished without an explicit commit or
/// rollback.
#[derive(PartialEq, Eq, Structural, Clone, Copy, Debug)]
pub enum Policy {
    /// Finishing it is an error.
    FailIfUnfinalised,
    /// Its buffered changes are dropped.
    Rollback,
    /// Its buffered changes are applied.
    Commit,
}

/// A type that selects the finish policy of a [`HashWrap`].
pub trait Behavior: Sealed {
    spec fn spec_policy() -> Policy;

    fn policy() -> (r: Policy)
        ensures
            r == Self::spec_policy(),
    ;
}

/// Finishing without commit or rollback is an error.
pub struct PanicIfUnfinalised;

/// Finishing without commit or rollback drops the buffered changes.
pub struct ImplicitRollback;

/// Finishing without commit or rollback applies the buffered changes.
pub struct ImplicitCommit;

impl Sealed for PanicIfUnfinalised {}

impl Sealed for ImplicitRollback {}

impl Sealed for ImplicitCommit {}

impl Behavior for PanicIfUnfinalised {
    open spec fn spec_policy() -> Policy {
        Policy::FailIfUnfinalised
    }

    fn policy() -> (r: Policy) {
        Policy::FailIfUnfinalised
    }
}

impl Behavior for ImplicitRollback {
    open spec fn spec_policy() -> Policy {
        Policy::Rollback
    }

    fn policy() -> (r: Policy) {
        Policy::Rollback
    }
}

impl Behavior for ImplicitCommit {
    open spec fn spec_policy() -> Policy {
        Policy::Commit
    }

    fn policy() -> (r: Policy) {
        Policy::Commit
    }
}

/// The error of finishing a wrapper whose policy forbids it.
#[derive(PartialEq, Eq, Structural, Clone, Copy, Debug)]
pub struct UnfinalisedDrop;

/// Cloning a key of this type gives back an equal key.
pub open spec fn exact_key_clones<K: Clone>() -> bool {
    forall|a: K, b: K| #[trigger] strictly_cloned(a, b) ==> a == b
}

/// The keys that hash maps and sets of this crate can be keyed by.
pub open spec fn usable_key<K: Clone>() -> bool {
    obeys_key_model::<K>() && exact_key_clones::<K>()
}

/// The map one sees through an overlay: `base` without the keys in
/// `removed`, then the entries of `added` over it.
pub open spec fn overlay<K, V>(base: Map<K, V>, added: Map<K, V>, removed: Set<K>) -> Map<K, V> {
    base.remove_keys(removed).union_prefer_right(added)
}

/// A fresh overlay shows the underlying map unchanged, so committing it
/// right away writes back what was there.
pub proof fn lemma_overlay_empty<K, V>(base: Map<K, V>)
    ensures
        overlay(base, Map::empty(), Set::empty()) == base,
{
    assert(overlay(base, Map::empty(), Set::empty()) =~= base);
}

/// Inserting through the overlay (the key joins the added entries and
/// leaves the removed keys) shows the same map as inserting into the map
/// the overlay showed before.
pub proof fn lemma_overlay_insert<K, V>(
    base: Map<K, V>,
    added: Map<K, V>,
    removed: Set<K>,
    k: K,
    v: V,
)
    ensures
        overlay(base, added.insert(k, v), removed.remove(k)) == overlay(base, added, removed).insert(
            k,
            v,
        ),
{
    assert(overlay(base, added.insert(k, v), removed.remove(k)) =~= overlay(
        base,
        added,
        removed,
    ).insert(k, v));
}

/// Removing through the overlay (the key leaves the added entries and
/// joins the removed keys) shows the same map as removing from the map the
/// overlay showed before.
pub proof fn lemma_overlay_remove<K, V>(base: Map<K, V>, added: Map<K, V>, removed: Set<K>, k: K)
    ensures
        overlay(base, added.remove(k), removed.insert(k)) == overlay(base, added, removed).remove(k),
{
    assert(overlay(base, added.remove(k), removed.insert(k)) =~= overlay(base, added, removed).remove(
        k,
    ));
}

/// One change to a map.
pub enum Edit<K, V> {
    Insert(K, V),
    Remove(K),
}

/// The map `m` with `e` applied to it.
pub open spec fn apply_edit<K, V>(m: Map<K, V>, e: Edit<K, V>) -> Map<K, V> {
    match e {
        Edit::Insert(k, v) => m.insert(k, v),
        Edit::Remove(k) => m.remove(k),
    }
}

/// The map `m` with each of `es` applied to it in turn.
pub open spec fn apply_edits<K, V>(m: Map<K, V>, es: Seq<Edit<K, V>>) -> Map<K, V>
    decreases es.len(),
{
    if es.len() == 0 {
        m
    } else {
        apply_edit(apply_edits(m, es.drop_last()), es.last())
    }
}

/// The added entries and removed keys of an overlay after it buffers `e`.
pub open spec fn buffer_edit<K, V>(added: Map<K, V>, removed: Set<K>, e: Edit<K, V>) -> (Map<
    K,
    V,
>, Set<K>) {
    match e {
        Edit::Insert(k, v) => (added.insert(k, v), removed.remove(k)),
        Edit::Remove(k) => (added.remove(k), removed.insert(k)),
    }
}

/// The added entries and removed keys of a fresh overlay after it buffers
/// each of `es` in turn.
pub open spec fn buffer_edits<K, V>(es: Seq<Edit<K, V>>) -> (Map<K, V>, Set<K>)
    decreases es.len(),
{
    if es.len() == 0 {
        (Map::empty(), Set::empty())
    } else {
        let (a, r) = buffer_edits(es.drop_last());
        buffer_edit(a, r, es.last())
    }
}

/// Committing a fresh overlay over `base` after the edits `es` leaves the
/// same map as applying `es` to `base` directly. A write through a handle
/// from `get_mut` counts as an insert of the value written.
pub proof fn lemma_commit_equivalence<K, V>(base: Map<K, V>, es: Seq<Edit<K, V>>)
    ensures
        overlay(base, buffer_edits(es).0, buffer_edits(es).1) == apply_edits(base, es),
    decreases es.len(),
{
    if es.len() == 0 {
        lemma_overlay_empty(base);
    } else {
        lemma_commit_equivalence(base, es.drop_last());
        let (a, r) = buffer_edits(es.drop_last());
        match es.last() {
            Edit::Insert(k, v) => lemma_overlay_insert(base, a, r, k, v),
            Edit::Remove(k) => lemma_overlay_remove(base, a, r, k),
        }
    }
}

/// What a fresh overlay over `base` shows after the edits `es`, whatever
/// `base` held: each key is present exactly when it is in `base` with `es`
/// applied directly, and holds the same value.
pub proof fn lemma_overlay_transparency<K, V>(base: Map<K, V>, es: Seq<Edit<K, V>>, k: K)
    ensures
        overlay(base, buffer_edits(es).0, buffer_edits(es).1).contains_key(k) == apply_edits(
            base,
            es,
        ).contains_key(k),
        apply_edits(base, es).contains_key(k) ==> overlay(
            base,
            buffer_edits(es).0,
            buffer_edits(es).1,
        )[k] == apply_edits(base, es)[k],
{
    lemma_commit_equivalence(base, es);
}

/// A clone of `k`, equal to it.
fn clone_key<K: Clone>(k: &K) -> (r: K)
    requires
        exact_key_clones::<K>(),
    ensures
        r == *k,
{
    let r = k.clone();
    assert(strictly_cloned(*k, r));
    r
}

/// Buffers changes to an exclusively borrowed hash map.
///
/// The finish policy `B` acts only when `SpecDrop::spec_drop` is called. A
/// wrapper that just goes out of scope discards its changes whatever its
/// policy. A verified destructor may not panic and takes no precondition,
/// so it could not fail as the strict policy asks, nor know the wrapper
/// well formed; and it must carry the struct's own bounds, without the
/// `Clone` that applying the overlay needs.
pub struct HashWrap<'a, K, V, B = PanicIfUnfinalised> where K: Eq + Hash, B: Behavior {
    inner: &'a mut HashMap<K, V>,
    added: HashMap<K, V>,
    removed: HashSet<K>,
    behaviour: PhantomData<B>,
}

impl<'a, K, V, B> HashWrap<'a, K, V, B> where K: Eq + Hash + Clone, V: Clone, B: Behavior {
    /// The handle to the underlying map; what it will hold once the
    /// wrapper is gone is `*final(self.handle())`.
    pub closed spec fn handle(&self) -> &'a mut HashMap<K, V> {
        self.inner
    }

    /// The underlying map as it is now.
    pub open spec fn base(&self) -> Map<K, V> {
        (*self.handle())@
    }

    /// Entries inserted or edited and not yet applied.
    pub closed spec fn added(&self) -> Map<K, V> {
        self.added@
    }

    /// Keys removed and not yet purged from the underlying map.
    pub closed spec fn removed(&self) -> Set<K> {
        self.removed@
    }

    pub closed spec fn wf(&self) -> bool {
        &&& usable_key::<K>()
        &&& self.added@.dom().disjoint(self.removed@)
    }

    /// The map as seen through the wrapper.
    pub open spec fn view(&self) -> Map<K, V> {
        overlay(self.base(), self.added(), self.removed())
    }

    /// Whether `x` is what the wrapper hands out for `k`: the buffered
    /// value itself, or a clone of the underlying one.
    pub open spec fn yields(&self, k: K, x: V) -> bool {
        if self.added().contains_key(k) {
            x == self.added()[k]
        } else {
            strictly_cloned(self.base()[k], x)
        }
    }

    /// Wraps `map` with an empty overlay.
    pub fn new(map: &'a mut HashMap<K, V>) -> (r: Self)
        requires
            usable_key::<K>(),
        ensures
            r.wf(),
            *r.handle() == *old(map),
            r@ == old(map)@,
            r.added().is_empty(),
            r.removed().is_empty(),
            *final(r.handle()) == *final(map),
    {
        HashWrap { inner: map, added: HashMap::new(), removed: HashSet::new(), behaviour: PhantomData }
    }

    /// Whether `k` is in the map as seen through the wrapper.
    pub fn contains_key(&self, k: &K) -> (r: bool)
        requires
            self.wf(),
        ensures
            r == self@.contains_key(*k),
    {
        !self.removed.contains(k) && (self.added.contains_key(k) || self.inner.contains_key(k))
    }

    /// Inserts `v` under `k` in the overlay and returns what `k` held
    /// before, as the wrapper saw it; the underlying map is not touched.
    pub fn insert(&mut self, k: K, v: V) -> (r: Option<V>)
        requires
            old(self).wf(),
        ensures
            final(self).wf(),
            final(self).handle() == old(self).handle(),
            final(self)@ == old(self)@.insert(k, v),
            (final(self).added(), final(self).removed()) == buffer_edit(
                old(self).added(),
                old(self).removed(),
                Edit::Insert(k, v),
            ),
            match r {
                Some(x) => old(self)@.contains_key(k) && old(self).yields(k, x),
                None => !old(self)@.contains_key(k),
            },
    {
        if self.added.contains_key(&k) {
            self.added.insert(k, v)
        } else if self.removed.contains(&k) {
            self.removed.remove(&k);
            self.added.insert(k, v)
        } else if self.inner.contains_key(&k) {
            let ret = Some(self.inner.get(&k).unwrap().clone());
            self.added.insert(k, v);
            ret
        } else {
            self.added.insert(k, v);
            None
        }
    }

    /// Removes `k` from the map as the wrapper sees it and returns what it
    /// held; the underlying map is not touched.
    pub fn remove(&mut self, k: &K) -> (r: Option<V>)
        requires
            old(self).wf(),
        ensures
            final(self).wf(),
            final(self).handle() == old(self).handle(),
            final(self)@ == old(self)@.remove(*k),
            (final(self).added(), final(self).removed()) == buffer_edit(
                old(self).added(),
                old(self).removed(),
                Edit::Remove(*k),
            ),
            match r {
                Some(x) => old(self)@.contains_key(*k) && old(self).yields(*k, x),
                None => !old(self)@.contains_key(*k),
            },
    {
        if self.added.contains_key(k) {
            self.removed.insert(clone_key(k));
            let r = self.added.remove(k);
            assert(self@ =~= old(self)@.remove(*k));
            r
        } else if self.removed.contains(k) {
            None
        } else {
            self.removed.insert(clone_key(k));
            assert(self@ =~= old(self)@.remove(*k));
            if self.inner.contains_key(k) {
                Some(self.inner.get(k).unwrap().clone())
            } else {
                None
            }
        }
    }

    /// Mutable access to the value under `k`. A value that is only in the
    /// underlying map is first cloned into the overlay, and the handle
    /// points there; the underlying map is never touched.
    pub fn get_mut(&mut self, k: &K) -> (r: Option<&mut V>)
        requires
            old(self).wf(),
        ensures
            final(self).wf(),
            final(self).handle() == old(self).handle(),
            match r {
                Some(x) => {
                    &&& old(self)@.contains_key(*k)
                    &&& old(self).yields(*k, *x)
                    &&& final(self)@ == old(self)@.insert(*k, *final(x))
                    &&& (final(self).added(), final(self).removed()) == buffer_edit(
                        old(self).added(),
                        old(self).removed(),
                        Edit::Insert(*k, *final(x)),
                    )
                },
                None => {
                    &&& !old(self)@.contains_key(*k)
                    &&& final(self).added() == old(self).added()
                    &&& final(self).removed() == old(self).removed()
                },
            },
    {
        if self.added.contains_key(k) {
            assert(self.removed@.remove(*k) =~= self.removed@);
            let v = self.added.remove(k).unwrap();
            Some(self.added.entry(clone_key(k)).or_insert(v))
        } else if self.removed.contains(k) {
            None
        } else if self.inner.contains_key(k) {
            let v = self.inner.get(k).unwrap().clone();
            assert(self.removed@.remove(*k) =~= self.removed@);
            Some(self.added.entry(clone_key(k)).or_insert(v))
        } else {
            None
        }
    }

    /// The value under `k` as the wrapper sees it. Looking up a key that is
    /// not there is a fatal error, so callers must hold that it is.
    pub fn index(&self, k: &K) -> (r: &V)
        requires
            self.wf(),
            self@.contains_key(*k),
        ensures
            *r == self@[*k],
    {
        if self.added.contains_key(k) {
            self.added.get(k).unwrap()
        } else {
            self.inner.get(k).unwrap()
        }
    }

    /// Applies the overlay to the underlying map: first every removed key
    /// is purged, then every added entry is written.
    fn apply(self)
        requires
            self.wf(),
        ensures
            (*final(self.handle()))@ == self@,
    {
        let HashWrap { inner, added, removed, behaviour: _ } = self;
        let ghost base0 = inner@;
        let ghost added0 = added@;
        let ghost rseq = spec_hash_keys_iter(&removed).remaining();
        let ghost mut idx: int = 0;
        for k in it: removed.iter()
            invariant
                usable_key::<K>(),
                it.seq() == rseq,
                idx == it.index(),
                rseq.unref().to_set() == removed@,
                inner@ =~= base0.remove_keys(
                    Set::new(|x: K| exists|j: int| 0 <= j < idx && *rseq[j] == x),
                ),
        {
            inner.remove(k);
            assert(Set::new(|x: K| exists|j: int| 0 <= j < idx + 1 && *rseq[j] == x)
                =~= Set::new(|x: K| exists|j: int| 0 <= j < idx && *rseq[j] == x).insert(*k));
            proof {
                idx = idx + 1;
            }
        }
        assert(idx == rseq.len());
        assert forall|x: K| removed@.contains(x) implies exists|j: int|
            0 <= j < idx && *rseq[j] == x by {
            assert(rseq.unref().contains(x));
            let j = choose|j: int| 0 <= j < rseq.unref().len() && rseq.unref()[j] == x;
            assert(*rseq[j] == x);
        }
        assert forall|x: K| (exists|j: int| 0 <= j < idx && *rseq[j] == x) implies removed@.contains(x) by {
            let j = choose|j: int| 0 <= j < idx && *rseq[j] == x;
            assert(rseq.unref()[j] == x);
            assert(rseq.unref().contains(x));
        }
        assert(Set::new(|x: K| exists|j: int| 0 <= j < idx && *rseq[j] == x) =~= removed@);
        let ghost mid = inner@;
        let ghost kseq = spec_keys_iter(&added).remaining();
        let mut keys: Vec<K> = Vec::new();
        for k in kit: added.keys()
            invariant
                usable_key::<K>(),
                kit.seq() == kseq,
                keys@.len() == kit.index(),
                keys@ =~= kseq.take(kit.index()).unref(),
        {
            keys.push(clone_key(k));
        }
        assert(keys@ =~= kseq.unref());
        assert(keys@.to_set() =~= added0.dom());
        assert(keys@.no_duplicates());
        let mut added = added;
        let n = keys.len();
        for i in 0..n
            invariant
                usable_key::<K>(),
                n == keys@.len(),
                keys@.no_duplicates(),
                keys@.to_set() == added0.dom(),
                forall|j: int| i <= j < n ==> #[trigger] added@.contains_key(keys@[j])
                    && added@[keys@[j]] == added0[keys@[j]],
                inner@ =~= mid.union_prefer_right(
                    added0.restrict(Set::new(|x: K| exists|j: int| 0 <= j < i && keys@[j] == x)),
                ),
        {
            let v = added.remove(&keys[i]).unwrap();
            inner.insert(clone_key(&keys[i]), v);
            assert(Set::new(|x: K| exists|j: int| 0 <= j < i + 1 && keys@[j] == x)
                =~= Set::new(|x: K| exists|j: int| 0 <= j < i && keys@[j] == x).insert(keys@[i as int]));
        }
        assert(Set::new(|x: K| exists|j: int| 0 <= j < n && keys@[j] == x) =~= added0.dom());
    }

    /// Applies the buffered changes to the underlying map, which then holds
    /// exactly what the wrapper showed.
    pub fn commit(self)
        requires
            self.wf(),
        ensures
            (*final(self.handle()))@ == self@,
    {
        self.apply()
    }

    /// Drops the buffered changes; the underlying map is left exactly as
    /// it was.
    pub fn rollback(self)
        ensures
            *final(self.handle()) == *self.handle(),
    {
    }
}

/// Finishing a wrapper on which neither commit nor rollback was called.
pub trait SpecDrop: Sized {
    /// Whether the wrapper is in a state that can be finished.
    spec fn finishable(&self) -> bool;

    fn spec_drop(self) -> Result<(), UnfinalisedDrop>
        requires
            self.finishable(),
    ;
}

impl<'a, K, V, B> SpecDrop for HashWrap<'a, K, V, B> where K: Eq + Hash + Clone, V: Clone, B: Behavior {
    /// Finishes a wrapper on which neither commit nor rollback was called,
    /// as its policy says: an error that leaves the underlying map as it was,
    /// a rollback, or a commit.
    open spec fn finishable(&self) -> bool {
        self.wf()
    }

    fn spec_drop(self) -> (r: Result<(), UnfinalisedDrop>)
        ensures
            match B::spec_policy() {
                Policy::FailIfUnfinalised => r is Err && *final(self.handle()) == *self.handle(),
                Policy::Rollback => r is Ok && *final(self.handle()) == *self.handle(),
                Policy::Commit => r is Ok && (*final(self.handle()))@ == self@,
            },
    {
        match B::policy() {
            Policy::FailIfUnfinalised => Err(UnfinalisedDrop),
            Policy::Rollback => {
                self.rollback();
                Ok(())
            },
            Policy::Commit => {
                self.commit();
                Ok(())
            },
        }
    }
}

} // verus!
