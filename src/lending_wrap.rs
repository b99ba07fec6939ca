//! An overlay over a lending library: a map whose values can be checked
//! out, through a loan, while the library keeps track of them.

use lending_library::{LendingLibrary, Loan};
use std::collections::HashSet;
use std::hash::Hash;
use vstd::prelude::*;
use vstd::std_specs::hash::{spec_hash_keys_iter, obeys_key_model};
use vstd::std_specs::iter::IteratorSpec;

verus! {

broadcast use vstd::std_specs::hash::group_hash_axioms;

#[verifier::external_type_specification]
#[verifier::external_body]
#[verifier::reject_recursive_types(K)]
#[verifier::reject_recursive_types(V)]
pub struct ExLendingLibrary<K: Hash, V>(LendingLibrary<K, V>);

#[verifier::external_type_specification]
#[verifier::external_body]
#[verifier::reject_recursive_types(K)]
#[verifier::reject_recursive_types(V)]
pub struct ExLoan<K: Hash, V>(Loan<K, V>);

/// The library this overlay works on: text values under integer keys.
pub type Library = LendingLibrary<u64, String>;

/// The slot a key is filed under in a library: the library's hash of the key.
pub uninterp spec fn key_hash(k: u64) -> u64;

/// The values present in a library, by slot.
pub uninterp spec fn lib_held(l: Library) -> Map<u64, String>;

/// The slots whose value was lent out; the loan may since have ended, and
/// nothing is claimed of what such a slot holds.
pub uninterp spec fn lib_lent(l: Library) -> Set<u64>;

/// The slots that were removed while on loan; the loan may since have ended.
pub uninterp spec fn lib_gone(l: Library) -> Set<u64>;

/// The value a loan gives access to, as it was lent.
pub uninterp spec fn loan_value(l: Loan<u64, String>) -> String;

/// Whether the slot of `k` is neither on loan nor waiting for a loan to end.
pub open spec fn free_slot(l: Library, k: u64) -> bool {
    !lib_lent(l).contains(key_hash(k)) && !lib_gone(l).contains(key_hash(k))
}

/// Whether nothing in the library is, or was, out on loan.
pub open spec fn settled(l: Library) -> bool {
    lib_lent(l).is_empty() && lib_gone(l).is_empty()
}

/// Relies on `LendingLibrary::new`: an empty library.
#[verifier::external_body]
fn lib_new() -> (r: Library)
    ensures
        lib_held(r).is_empty(),
        settled(r),
{
    LendingLibrary::new()
}

/// Relies on `LendingLibrary::contains_key`: a slot that holds a value or
/// is on loan counts as present.
#[verifier::external_body]
fn lib_contains(l: &Library, k: u64) -> (r: bool)
    ensures
        r == (lib_held(*l).contains_key(key_hash(k)) || lib_lent(*l).contains(key_hash(k))),
{
    l.contains_key(&k)
}

/// Relies on `LendingLibrary::insert`: stores `v` in the slot of `k` and
/// hands back what was there. It panics on a slot that is on loan or
/// waiting for one to end.
#[verifier::external_body]
fn lib_insert(l: &mut Library, k: u64, v: String) -> (r: Option<String>)
    requires
        free_slot(*old(l), k),
    ensures
        lib_held(*final(l)) == lib_held(*old(l)).insert(key_hash(k), v),
        lib_lent(*final(l)) == lib_lent(*old(l)),
        lib_gone(*final(l)) == lib_gone(*old(l)),
        r == (if lib_held(*old(l)).contains_key(key_hash(k)) {
            Some(lib_held(*old(l))[key_hash(k)])
        } else {
            None::<String>
        }),
{
    l.insert(k, v)
}

/// Relies on `LendingLibrary::remove`: a held value is dropped, a slot on
/// loan is marked to be dropped when the loan ends; the result says
/// whether the key was present.
#[verifier::external_body]
fn lib_remove(l: &mut Library, k: u64) -> (r: bool)
    ensures
        lib_held(*final(l)) == lib_held(*old(l)).remove(key_hash(k)),
        lib_lent(*final(l)) == lib_lent(*old(l)).remove(key_hash(k)),
        lib_gone(*final(l)) == (if lib_lent(*old(l)).contains(key_hash(k)) {
            lib_gone(*old(l)).insert(key_hash(k))
        } else {
            lib_gone(*old(l))
        }),
        r == (lib_held(*old(l)).contains_key(key_hash(k)) || lib_lent(*old(l)).contains(
            key_hash(k),
        )),
{
    l.remove(&k)
}

/// Relies on `LendingLibrary::lend`: checks out the value of `k`, whose
/// slot stays on loan until the loan ends. It panics on a slot that is on
/// loan or waiting for one to end.
#[verifier::external_body]
fn lib_lend(l: &mut Library, k: u64) -> (r: Option<Loan<u64, String>>)
    requires
        free_slot(*old(l), k),
    ensures
        match r {
            Some(loan) => {
                &&& lib_held(*old(l)).contains_key(key_hash(k))
                &&& loan_value(loan) == lib_held(*old(l))[key_hash(k)]
                &&& lib_held(*final(l)) == lib_held(*old(l)).remove(key_hash(k))
                &&& lib_lent(*final(l)) == lib_lent(*old(l)).insert(key_hash(k))
            },
            None => {
                &&& !lib_held(*old(l)).contains_key(key_hash(k))
                &&& lib_held(*final(l)) == lib_held(*old(l))
                &&& lib_lent(*final(l)) == lib_lent(*old(l))
            },
        },
        lib_gone(*final(l)) == lib_gone(*old(l)),
{
    l.lend(&k)
}

/// Relies on `LendingLibrary::lend` together with the loan's `Deref` and
/// `Drop`: borrows the value of `k`, clones it and returns the loan at once,
/// which leaves the library as it was.
#[verifier::external_body]
fn lib_peek(l: &mut Library, k: u64) -> (r: Option<String>)
    requires
        free_slot(*old(l), k),
    ensures
        r == (if lib_held(*old(l)).contains_key(key_hash(k)) {
            Some(lib_held(*old(l))[key_hash(k)])
        } else {
            None::<String>
        }),
        lib_held(*final(l)) == lib_held(*old(l)),
        lib_lent(*final(l)) == lib_lent(*old(l)),
        lib_gone(*final(l)) == lib_gone(*old(l)),
{
    match l.lend(&k) {
        Some(loan) => Some((*loan).clone()),
        None => None,
    }
}

/// Relies on `Extend` for `LendingLibrary`: every entry of `other` is
/// inserted into `l`. It panics if `other` has a loan out, or if a slot it
/// writes is on loan in `l`.
#[verifier::external_body]
fn lib_extend(l: &mut Library, other: Library)
    requires
        settled(other),
        forall|h: u64| #[trigger]
            lib_held(other).contains_key(h) ==> !lib_lent(*old(l)).contains(h) && !lib_gone(
                *old(l),
            ).contains(h),
    ensures
        lib_held(*final(l)) == lib_held(*old(l)).union_prefer_right(lib_held(other)),
        lib_lent(*final(l)) == lib_lent(*old(l)),
        lib_gone(*final(l)) == lib_gone(*old(l)),
{
    l.extend(other)
}

/// A new, empty library with no loan out, ready to be wrapped; committing
/// a wrapper over it is how verified code fills it.
pub fn empty_library() -> (r: Library)
    ensures
        lib_held(r).is_empty(),
        settled(r),
{
    lib_new()
}

/// Buffers changes to an exclusively borrowed lending library.
pub struct LendingWrap<'a> {
    inner: &'a mut Library,
    added: Library,
    removed: HashSet<u64>,
}

impl<'a> LendingWrap<'a> {
    /// The handle to the underlying library; what it will hold once the
    /// wrapper is gone is `*final(self.handle())`.
    pub closed spec fn handle(&self) -> &'a mut Library {
        self.inner
    }

    /// The underlying library as it is now.
    pub open spec fn base(&self) -> Library {
        *self.handle()
    }

    /// The library of entries inserted, edited or lent, not yet applied.
    pub closed spec fn added(&self) -> Library {
        self.added
    }

    /// Keys removed and not yet purged from the underlying library.
    pub closed spec fn removed(&self) -> Set<u64> {
        self.removed@
    }

    /// No removed key is filed in a slot that the overlay holds or has lent.
    pub open spec fn wf(&self) -> bool {
        forall|r: u64| #[trigger] self.removed().contains(r) ==> !self.in_added(r)
    }

    /// Whether `self` sees the same underlying entries as `other`.
    pub open spec fn same_base(&self, other: Self) -> bool {
        &&& lib_held(self.base()) == lib_held(other.base())
        &&& lib_lent(self.base()) == lib_lent(other.base())
        &&& lib_gone(self.base()) == lib_gone(other.base())
    }

    /// Whether `k` is present as seen through the wrapper.
    pub open spec fn shows(&self, k: u64) -> bool {
        &&& !self.removed().contains(k)
        &&& {
            ||| lib_held(self.added()).contains_key(key_hash(k))
            ||| lib_lent(self.added()).contains(key_hash(k))
            ||| lib_held(self.base()).contains_key(key_hash(k))
            ||| lib_lent(self.base()).contains(key_hash(k))
        }
    }

    /// The value of `k` as seen through the wrapper, for a key that was
    /// never lent from the overlay.
    pub open spec fn value_of(&self, k: u64) -> String {
        if lib_held(self.added()).contains_key(key_hash(k)) {
            lib_held(self.added())[key_hash(k)]
        } else {
            lib_held(self.base())[key_hash(k)]
        }
    }

    /// Whether the overlay has the slot of `k`, held or lent.
    pub open spec fn in_added(&self, k: u64) -> bool {
        lib_held(self.added()).contains_key(key_hash(k)) || lib_lent(self.added()).contains(key_hash(k))
    }

    /// Whether the overlay's slot for `k` can still be written and lent.
    pub open spec fn writable(&self, k: u64) -> bool {
        free_slot(self.added(), k)
    }

    /// The underlying library once the overlay is applied: removed keys
    /// purged, then the added entries written.
    pub open spec fn committed(&self) -> Map<u64, String> {
        lib_held(self.base()).remove_keys(self.removed().map(|k: u64| key_hash(k))).union_prefer_right(
            lib_held(self.added()),
        )
    }

    /// Wraps `lib` with an empty overlay.
    pub fn new(lib: &'a mut Library) -> (r: Self)
        ensures
            r.wf(),
            *r.handle() == *old(lib),
            *final(r.handle()) == *final(lib),
            lib_held(r.added()).is_empty(),
            settled(r.added()),
            r.removed().is_empty(),
    {
        LendingWrap { inner: lib, added: lib_new(), removed: HashSet::new() }
    }

    /// Whether `k` is present as seen through the wrapper.
    pub fn contains_key(&self, k: &u64) -> (r: bool)
        requires
            self.wf(),
        ensures
            r == self.shows(*k),
    {
        !self.removed.contains(k) && (lib_contains(&self.added, *k) || lib_contains(
            &*self.inner,
            *k,
        ))
    }

    /// Drops from the removed keys every key whose slot the overlay now
    /// holds or has lent.
    fn purge_removed(&mut self)
        requires
            obeys_key_model::<u64>(),
        ensures
            final(self).handle() == old(self).handle(),
            final(self).added() == old(self).added(),
            final(self).removed() == old(self).removed().filter(|r: u64| !old(self).in_added(r)),
    {
        let ghost orig = self.removed@;
        let ghost rseq = spec_hash_keys_iter(&self.removed).remaining();
        let mut keys: Vec<u64> = Vec::new();
        for r in it: self.removed.iter()
            invariant
                it.seq() == rseq,
                keys@ =~= rseq.take(it.index()).unref(),
        {
            keys.push(*r);
        }
        assert(keys@ =~= rseq.unref());
        assert(keys@.to_set() =~= orig);
        let n = keys.len();
        for i in 0..n
            invariant
                obeys_key_model::<u64>(),
                n == keys@.len(),
                keys@.to_set() == orig,
                self.handle() == old(self).handle(),
                self.added() == old(self).added(),
                self.removed() =~= orig.difference(
                    Set::new(|x: u64| old(self).in_added(x) && exists|j: int| 0 <= j < i && keys@[j] == x),
                ),
        {
            let ghost before = self.removed();
            let key = keys[i];
            if lib_contains(&self.added, key) {
                self.removed.remove(&key);
                assert(self.removed() == before.remove(key));
            }
            assert(Set::new(|x: u64| old(self).in_added(x) && exists|j: int| 0 <= j < i + 1 && keys@[j] == x)
                =~= if old(self).in_added(key) {
                    Set::new(|x: u64| old(self).in_added(x) && exists|j: int| 0 <= j < i && keys@[j] == x).insert(key)
                } else {
                    Set::new(|x: u64| old(self).in_added(x) && exists|j: int| 0 <= j < i && keys@[j] == x)
                });
        }
        assert forall|x: u64| orig.contains(x) implies exists|j: int| 0 <= j < n && keys@[j] == x by {
            assert(keys@.to_set().contains(x));
        }
        assert(self.removed() =~= orig.filter(|r: u64| !old(self).in_added(r)));
    }

    /// Inserts `v` under `k` in the overlay and returns what `k` held
    /// before, as the wrapper saw it; the underlying library is not
    /// changed.
    ///
    /// The slot of `k` must not be on loan in the underlying library, and the
    /// overlay's slot for `k` must never have been lent. A loan hands its
    /// value back when it is dropped, through the address of the library it
    /// came from, which is out of sight here; so a slot once lent stays
    /// barred even after its loan has ended.
    pub fn insert(&mut self, k: u64, v: String) -> (r: Option<String>)
        requires
            old(self).wf(),
            old(self).writable(k),
            free_slot(old(self).base(), k),
        ensures
            final(self).wf(),
            *final(final(self).handle()) == *final(old(self).handle()),
            final(self).same_base(*old(self)),
            lib_held(final(self).added()) == lib_held(old(self).added()).insert(key_hash(k), v),
            lib_lent(final(self).added()) == lib_lent(old(self).added()),
            lib_gone(final(self).added()) == lib_gone(old(self).added()),
            final(self).removed() == old(self).removed().filter(
                |j: u64| key_hash(j) != key_hash(k),
            ),
            final(self).shows(k),
            final(self).value_of(k) == v,
            r == (if old(self).shows(k) {
                Some(old(self).value_of(k))
            } else {
                None::<String>
            }),
    {
        let ghost pre = *self;
        let ghost cleared = self.removed@.filter(|j: u64| key_hash(j) != key_hash(k));
        let ret = if lib_contains(&self.added, k) {
            lib_insert(&mut self.added, k, v)
        } else if self.removed.contains(&k) {
            self.removed.remove(&k);
            lib_insert(&mut self.added, k, v)
        } else if lib_contains(&*self.inner, k) {
            let ret = lib_peek(&mut *self.inner, k);
            lib_insert(&mut self.added, k, v);
            ret
        } else {
            lib_insert(&mut self.added, k, v);
            None
        };
        let ghost mid = *self;
        self.purge_removed();
        assert forall|x: u64| #[trigger] cleared.contains(x) implies mid.removed().contains(x)
            && !mid.in_added(x) by {
            assert(pre.removed().contains(x));
            assert(!pre.in_added(x));
        }
        assert forall|x: u64| #[trigger] mid.removed().contains(x) && !mid.in_added(x) implies cleared.contains(x) by {
            assert(pre.removed().contains(x));
        }
        assert(mid.removed().filter(|r: u64| !mid.in_added(r)) =~= cleared);
        ret
    }

    /// Removes `k` as seen through the wrapper and says whether it was
    /// there; the underlying library is not changed.
    pub fn remove(&mut self, k: &u64) -> (r: bool)
        requires
            old(self).wf(),
        ensures
            final(self).wf(),
            *final(final(self).handle()) == *final(old(self).handle()),
            final(self).same_base(*old(self)),
            final(self).removed() == old(self).removed().insert(*k),
            lib_held(final(self).added()) == lib_held(old(self).added()).remove(key_hash(*k)),
            lib_lent(final(self).added()) == lib_lent(old(self).added()).remove(key_hash(*k)),
            lib_gone(final(self).added()) == (if lib_lent(old(self).added()).contains(key_hash(*k)) {
                lib_gone(old(self).added()).insert(key_hash(*k))
            } else {
                lib_gone(old(self).added())
            }),
            !final(self).shows(*k),
            r == old(self).shows(*k),
    {
        let r = if lib_contains(&self.added, *k) {
            self.removed.insert(*k);
            lib_remove(&mut self.added, *k)
        } else if self.removed.contains(k) {
            lib_remove(&mut self.added, *k);
            false
        } else {
            self.removed.insert(*k);
            lib_remove(&mut self.added, *k);
            lib_contains(&*self.inner, *k)
        };
        assert forall|x: u64| #[trigger] self.removed().contains(x) implies !self.in_added(x) by {
            if x != *k {
                assert(old(self).removed().contains(x));
            }
        }
        r
    }

    /// Checks out the value of `k` as seen through the wrapper. A value that
    /// is only in the underlying library is first copied into the overlay,
    /// and the loan is taken from there; the underlying library is not
    /// changed.
    ///
    /// The slot of `k` must not be on loan in the underlying library, and the
    /// overlay's slot for `k` must never have been lent: a loan hands its
    /// value back when dropped, through the address of the library it came
    /// from, out of sight here, so after it ends nothing is stated of what
    /// the overlay holds for `k`. A loan still out when the wrapper is
    /// dropped or rolled back makes the overlay's library panic as it is
    /// dropped.
    pub fn lend(&mut self, k: &u64) -> (r: Option<Loan<u64, String>>)
        requires
            old(self).wf(),
            old(self).writable(*k),
            free_slot(old(self).base(), *k),
        ensures
            final(self).wf(),
            *final(final(self).handle()) == *final(old(self).handle()),
            final(self).same_base(*old(self)),
            lib_gone(final(self).added()) == lib_gone(old(self).added()),
            match r {
                Some(loan) => {
                    &&& old(self).shows(*k)
                    &&& final(self).shows(*k)
                    &&& loan_value(loan) == old(self).value_of(*k)
                    &&& lib_held(final(self).added()) == lib_held(old(self).added()).remove(
                        key_hash(*k),
                    )
                    &&& lib_lent(final(self).added()) == lib_lent(old(self).added()).insert(
                        key_hash(*k),
                    )
                    &&& final(self).removed() == old(self).removed().filter(
                        |j: u64| key_hash(j) != key_hash(*k),
                    )
                },
                None => {
                    &&& !old(self).shows(*k)
                    &&& final(self).added() == old(self).added()
                    &&& final(self).removed() == old(self).removed()
                },
            },
    {
        if lib_contains(&self.added, *k) {
            let r = lib_lend(&mut self.added, *k);
            assert forall|x: u64| #[trigger] self.removed().contains(x) implies !self.in_added(x) by {
                assert(old(self).removed().contains(x));
                assert(!old(self).in_added(x));
            }
            r
        } else if self.removed.contains(k) {
            None
        } else if lib_contains(&*self.inner, *k) {
            let ghost pre = *self;
            let ghost cleared = self.removed@.filter(|j: u64| key_hash(j) != key_hash(*k));
            let item = lib_peek(&mut *self.inner, *k).unwrap();
            lib_insert(&mut self.added, *k, item);
            let r = lib_lend(&mut self.added, *k);
            let ghost mid = *self;
            self.purge_removed();
            assert forall|x: u64| #[trigger] cleared.contains(x) implies mid.removed().contains(x)
                && !mid.in_added(x) by {
                assert(pre.removed().contains(x));
                assert(!pre.in_added(x));
            }
            assert forall|x: u64| #[trigger] mid.removed().contains(x) && !mid.in_added(x) implies cleared.contains(x) by {
                assert(pre.removed().contains(x));
            }
            assert(mid.removed().filter(|x: u64| !mid.in_added(x)) =~= cleared);
            r
        } else {
            None
        }
    }

    /// Applies the overlay to the underlying library: first every removed
    /// key is purged, then every added entry is written.
    ///
    /// No loan may ever have been taken from the overlay. The library's
    /// `Extend` panics while a loan is out, and a loan's return happens on
    /// its drop, out of sight here, so even an ended loan bars the commit.
    ///
    /// A slot the overlay writes must not be out on loan in the underlying
    /// library either, since writing it there would panic.
    pub fn commit(self)
        requires
            self.wf(),
            settled(self.added()),
            forall|h: u64| #[trigger]
                lib_held(self.added()).contains_key(h) ==> !lib_lent(self.base()).contains(h)
                    && !lib_gone(self.base()).contains(h),
        ensures
            lib_held(*final(self.handle())) == self.committed(),
            settled(self.base()) ==> settled(*final(self.handle())),
    {
        let ghost was_settled = settled(self.base());
        assert forall|r: u64| #[trigger] self.removed().contains(r) implies !lib_held(
            self.added(),
        ).contains_key(key_hash(r)) by {
            assert(!self.in_added(r));
        }
        let ghost rem0 = self.removed();
        let ghost add0 = self.added();
        let LendingWrap { inner, added, removed } = self;
        assert(removed@ == rem0 && added == add0);
        assert forall|r: u64| #[trigger] removed@.contains(r) implies !lib_held(added).contains_key(
            key_hash(r),
        ) by {
            assert(rem0.contains(r));
        }
        let ghost base0 = lib_held(*inner);
        let ghost rseq = spec_hash_keys_iter(&removed).remaining();
        let ghost mut idx: int = 0;
        for k in it: removed.iter()
            invariant
                obeys_key_model::<u64>(),
                it.seq() == rseq,
                idx == it.index(),
                rseq.unref().to_set() == removed@,
                was_settled ==> settled(*inner),
                forall|r: u64| #[trigger]
                    removed@.contains(r) ==> !lib_held(added).contains_key(key_hash(r)),
                forall|h: u64| #[trigger]
                    lib_held(added).contains_key(h) ==> !lib_lent(*inner).contains(h)
                        && !lib_gone(*inner).contains(h),
                lib_held(*inner) =~= base0.remove_keys(
                    Set::new(|h: u64| exists|j: int| 0 <= j < idx && key_hash(*rseq[j]) == h),
                ),
        {
            assert(rseq.unref()[idx] == *k);
            assert(rseq.unref().contains(*k));
            assert(removed@.contains(*k));
            lib_remove(inner, *k);
            assert(Set::new(|h: u64| exists|j: int| 0 <= j < idx + 1 && key_hash(*rseq[j]) == h)
                =~= Set::new(|h: u64| exists|j: int| 0 <= j < idx && key_hash(*rseq[j]) == h).insert(
                key_hash(*k),
            ));
            proof {
                idx = idx + 1;
            }
        }
        assert(idx == rseq.len());
        let ghost hashed = removed@.map(|k: u64| key_hash(k));
        assert forall|h: u64| #[trigger] hashed.contains(h) implies exists|j: int|
            0 <= j < idx && key_hash(*rseq[j]) == h by {
            let x = choose|x: u64| removed@.contains(x) && key_hash(x) == h;
            assert(rseq.unref().contains(x));
            let j = choose|j: int| 0 <= j < rseq.unref().len() && rseq.unref()[j] == x;
            assert(*rseq[j] == x);
        }
        assert forall|h: u64| (exists|j: int| 0 <= j < idx && key_hash(*rseq[j]) == h) implies #[trigger] hashed.contains(h) by {
            let j = choose|j: int| 0 <= j < idx && key_hash(*rseq[j]) == h;
            assert(rseq.unref()[j] == *rseq[j]);
            assert(rseq.unref().contains(*rseq[j]));
            assert(removed@.contains(*rseq[j]));
        }
        assert(Set::new(|h: u64| exists|j: int| 0 <= j < idx && key_hash(*rseq[j]) == h) =~= hashed);
        lib_extend(inner, added);
    }

    /// Drops the overlay; the underlying library is left as it was. As in
    /// the library itself, a loan from the overlay that is still out makes
    /// this panic.
    pub fn rollback(self)
        ensures
            *final(self.handle()) == *self.handle(),
    {
    }
}

} // verus!
