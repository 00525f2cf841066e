//! A simultaneous-input barrier: collects one value per player up to a fixed
//! capacity.  Completion shows once all but one player have contributed; the
//! call site that discovers completion supplies the final pair directly when
//! it materializes the full collection, instead of inserting it first.

use vstd::pervasive::cloned;
use vstd::prelude::*;

use crate::assoc::{
    alist_at, alist_get, alist_has_key, alist_key_index, alist_no_dup_keys, lemma_alist_at_index,
};
use crate::model::PlayerId;

verus! {

/// The barrier itself: a partial mapping of contributions, capped by the
/// number of expected contributors.
pub struct Simulataneously<V> {
    entries: Vec<(PlayerId, V)>,
    size: usize,
}

/// The completion view: a copy of the stored contributions, ready to be
/// combined with the final pair.
pub struct Complete<V> {
    pub entries: Vec<(PlayerId, V)>,
    pub size: usize,
}

/// The collection that materializing a completion view yields: the stored
/// entries with the final pair appended, or, when the final key was already
/// present, with its value replaced.
pub open spec fn finalized_of<V>(partial: Seq<(PlayerId, V)>, k: PlayerId, v: V) -> Seq<
    (PlayerId, V),
> {
    if alist_has_key(partial, k) {
        partial.update(alist_key_index(partial, k), (k, v))
    } else {
        partial.push((k, v))
    }
}

/// Completion arithmetic: a barrier of capacity `cap` exposes its completion
/// view once exactly `cap - 1` distinct keys have contributed, and combining
/// the stored entries with a final pair under a fresh key yields exactly
/// `cap` entries, no key bound twice.
pub proof fn lemma_completion_arithmetic<V>(
    partial: Seq<(PlayerId, V)>,
    cap: int,
    k: PlayerId,
    v: V,
)
    requires
        alist_no_dup_keys(partial),
        partial.len() == cap - 1,
        !alist_has_key(partial, k),
    ensures
        finalized_of(partial, k, v).len() == cap,
        alist_no_dup_keys(finalized_of(partial, k, v)),
        alist_at(finalized_of(partial, k, v), k) == v,
{
    let full = finalized_of(partial, k, v);
    assert(full == partial.push((k, v)));
    assert forall|i: int, j: int|
        0 <= i < full.len() && 0 <= j < full.len() && i != j implies full[i].0 != full[j].0 by {
        if i < cap - 1 && j < cap - 1 {
            assert(full[i] == partial[i] && full[j] == partial[j]);
        }
    }
    lemma_alist_at_index(full, cap - 1);
}

impl<V> Simulataneously<V> {
    /// The number of expected contributors.
    pub closed spec fn capacity(&self) -> int {
        self.size as int
    }

    /// The contributions stored so far, in arrival order.
    pub closed spec fn partial(&self) -> Seq<(PlayerId, V)> {
        self.entries@
    }

    /// One entry per contributor, and always short of the capacity.
    pub open spec fn wf(&self) -> bool {
        &&& self.capacity() >= 2
        &&& alist_no_dup_keys(self.partial())
        &&& self.partial().len() < self.capacity()
    }

    /// Builds a barrier for `size` contributors; a capacity of zero or one
    /// has no meaningful completion semantics and is rejected.
    pub fn new(size: usize) -> (r: Option<Self>)
        ensures
            r is Some <==> size >= 2,
            r is Some ==> r.unwrap().wf() && r.unwrap().capacity() == size
                && r.unwrap().partial().len() == 0,
    {
        if size >= 2 {
            Some(Simulataneously { entries: Vec::new(), size })
        } else {
            None
        }
    }

    /// Records one player's contribution; contributing again before
    /// completion is a benign overwrite.
    #[verifier::loop_isolation(false)]
    pub fn insert(&mut self, key: PlayerId, value: V)
        requires
            old(self).wf(),
            alist_has_key(old(self).partial(), key) || old(self).partial().len() + 1 < old(
                self,
            ).capacity(),
        ensures
            final(self).wf(),
            final(self).capacity() == old(self).capacity(),
            alist_has_key(old(self).partial(), key) ==> final(self).partial() == old(
                self,
            ).partial().update(alist_key_index(old(self).partial(), key), (key, value)),
            !alist_has_key(old(self).partial(), key) ==> final(self).partial() == old(
                self,
            ).partial().push((key, value)),
            alist_has_key(final(self).partial(), key),
            alist_at(final(self).partial(), key) == value,
    {
        let ghost orig = self.entries@;
        let n = self.entries.len();
        let mut i: usize = 0;
        while i < n
            invariant
                n == self.entries@.len(),
                i <= n,
                self.entries@ == orig,
                self.size == old(self).size,
                forall|j: int| 0 <= j < i ==> (#[trigger] orig[j]).0 != key,
            decreases n - i,
        {
            if self.entries[i].0 == key {
                proof {
                    lemma_alist_at_index(orig, i as int);
                }
                self.entries.remove(i);
                self.entries.insert(i, (key, value));
                proof {
                    assert(self.entries@ =~= orig.update(i as int, (key, value)));
                    lemma_alist_at_index(self.entries@, i as int);
                }
                return ;
            }
            i = i + 1;
        }
        self.entries.push((key, value));
        proof {
            assert(!alist_has_key(orig, key));
            lemma_alist_at_index(self.entries@, orig.len() as int);
        }
    }

    /// Whether a contribution under `key` can be recorded without pushing
    /// the barrier past its capacity.
    pub fn can_insert(&self, key: &PlayerId) -> (r: bool)
        requires
            self.wf(),
        ensures
            r == (alist_has_key(self.partial(), *key) || self.partial().len() + 1
                < self.capacity()),
    {
        match alist_get(&self.entries, *key) {
            Some(_) => true,
            None => self.entries.len() + 1 < self.size,
        }
    }

    /// Reads one player's stored contribution.
    pub fn get(&self, key: &PlayerId) -> (r: Option<&V>)
        requires
            self.wf(),
        ensures
            match r {
                Some(v) => alist_has_key(self.partial(), *key) && *v == alist_at(
                    self.partial(),
                    *key,
                ),
                None => !alist_has_key(self.partial(), *key),
            },
    {
        alist_get(&self.entries, *key)
    }
}

impl<V: Clone> Simulataneously<V> {
    /// Exposes the completion view exactly when all but one contributor have
    /// contributed; the view carries a copy of every stored entry.
    #[verifier::loop_isolation(false)]
    pub fn is_complete(&self) -> (r: Option<Complete<V>>)
        requires
            self.wf(),
        ensures
            r is Some <==> self.partial().len() == self.capacity() - 1,
            r is Some ==> {
                let c = r.unwrap();
                &&& c.size as int == self.capacity()
                &&& c.entries@.len() == self.partial().len()
                &&& forall|i: int|
                    0 <= i < c.entries@.len() ==> (#[trigger] c.entries@[i]).0
                        == self.partial()[i].0 && cloned::<V>(
                        self.partial()[i].1,
                        c.entries@[i].1,
                    )
            },
    {
        if self.entries.len() + 1 == self.size {
            let n = self.entries.len();
            let mut entries: Vec<(PlayerId, V)> = Vec::new();
            let mut i: usize = 0;
            while i < n
                invariant
                    n == self.entries@.len(),
                    i <= n,
                    entries@.len() == i,
                    forall|j: int|
                        0 <= j < i ==> (#[trigger] entries@[j]).0 == self.entries@[j].0
                            && cloned::<V>(self.entries@[j].1, entries@[j].1),
                decreases n - i,
            {
                let v = self.entries[i].1.clone();
                entries.push((self.entries[i].0, v));
                i = i + 1;
            }
            Some(Complete { entries, size: self.size })
        } else {
            None
        }
    }
}

impl<V> Complete<V> {
    /// Materializes the full collection: the stored entries plus the
    /// caller-supplied final pair.  A final pair under an already-present key
    /// replaces the stored value; otherwise the collection grows to the full
    /// capacity.
    #[verifier::loop_isolation(false)]
    pub fn finalize(self, last_key: PlayerId, last_value: V) -> (r: Vec<(PlayerId, V)>)
        requires
            alist_no_dup_keys(self.entries@),
        ensures
            alist_no_dup_keys(r@),
            alist_has_key(r@, last_key),
            alist_at(r@, last_key) == last_value,
            r@ == finalized_of(self.entries@, last_key, last_value),
            !alist_has_key(self.entries@, last_key) ==> r@.len() == self.entries@.len() + 1,
    {
        let ghost orig = self.entries@;
        let mut entries = self.entries;
        let n = entries.len();
        let mut i: usize = 0;
        while i < n
            invariant
                n == entries@.len(),
                i <= n,
                entries@ == orig,
                forall|j: int| 0 <= j < i ==> (#[trigger] orig[j]).0 != last_key,
            decreases n - i,
        {
            if entries[i].0 == last_key {
                proof {
                    lemma_alist_at_index(orig, i as int);
                }
                entries.remove(i);
                entries.insert(i, (last_key, last_value));
                proof {
                    assert(entries@ =~= orig.update(i as int, (last_key, last_value)));
                    lemma_alist_at_index(entries@, i as int);
                }
                return entries;
            }
            i = i + 1;
        }
        entries.push((last_key, last_value));
        proof {
            assert(!alist_has_key(orig, last_key));
            lemma_alist_at_index(entries@, orig.len() as int);
        }
        entries
    }
}

} // verus!
