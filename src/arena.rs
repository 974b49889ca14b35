//! The identifier arena: occupied slots hold user records, and an insertion
//! takes the lowest slot that is free.
use vstd::prelude::*;
use slab::Slab;
use crate::store::{
    full_below, keys_below, slab_contains, slab_extent, slab_get, slab_insert, slab_keys,
    slab_len, slab_new, slab_ordered_keys, slab_set, slab_try_remove,
    slab_vacant_key, slab_wf, UserRecord,
};

verus! {

/// `k` is free in `ids`, and every slot below it is taken.
pub open spec fn is_lowest_free(ids: Set<usize>, k: usize) -> bool {
    !ids.contains(k) && full_below(ids, k as int)
}

/// The slot that the next insertion into an arena holding `ids` takes.
pub open spec fn lowest_free(ids: Set<usize>) -> usize {
    choose|k: usize| is_lowest_free(ids, k)
}

/// The identifiers of `ids` in ascending order.
pub open spec fn ordered_ids(ids: Set<usize>) -> Seq<usize> {
    keys_below(ids, usize::MAX as nat + 1)
}

/// The set of the slots below `n`.
pub open spec fn slots_below(n: nat) -> Set<usize> {
    Set::new(|i: usize| (i as nat) < n)
}

pub proof fn lemma_slots_below(n: nat)
    requires
        n <= usize::MAX as nat + 1,
    ensures
        slots_below(n).finite(),
        slots_below(n).len() == n,
    decreases n,
{
    if n == 0 {
        assert(slots_below(0) =~= Set::<usize>::empty());
    } else {
        lemma_slots_below((n - 1) as nat);
        assert(slots_below(n) =~= slots_below((n - 1) as nat).insert((n - 1) as usize));
    }
}

/// A set of slots that all lie below `n` has at most `n` of them, and exactly
/// `n` when none below `n` is missing.
pub proof fn lemma_bounded_len(ids: Set<usize>, n: usize)
    requires
        forall|k: usize| #[trigger] ids.contains(k) ==> k < n,
    ensures
        ids.finite(),
        ids.len() <= n,
        full_below(ids, n as int) ==> ids.len() == n,
{
    lemma_slots_below(n as nat);
    assert(ids.subset_of(slots_below(n as nat)));
    vstd::set_lib::lemma_len_subset(ids, slots_below(n as nat));
    if full_below(ids, n as int) {
        assert(ids =~= slots_below(n as nat));
    }
}

/// Every entry of `keys_below(ids, n)` lies below `n`, they ascend strictly,
/// and they are exactly the members of `ids` below `n`.
pub proof fn lemma_keys_below(ids: Set<usize>, n: nat)
    requires
        n <= usize::MAX as nat + 1,
    ensures
        forall|i: int| 0 <= i < keys_below(ids, n).len() ==> (#[trigger] keys_below(ids, n)[i] as nat) < n,
        forall|i: int, j: int|
            0 <= i < j < keys_below(ids, n).len() ==> #[trigger] keys_below(ids, n)[i] < #[trigger] keys_below(ids, n)[j],
        forall|k: usize| (k as nat) < n && ids.contains(k) <==> #[trigger] keys_below(ids, n).contains(k),
    decreases n,
{
    if n > 0 {
        lemma_keys_below(ids, (n - 1) as nat);
        let prev = keys_below(ids, (n - 1) as nat);
        if ids.contains((n - 1) as usize) {
            let cur = prev.push((n - 1) as usize);
            assert forall|k: usize| (k as nat) < n && ids.contains(k) <==> #[trigger] cur.contains(k) by {
                if cur.contains(k) {
                    let j = choose|j: int| 0 <= j < cur.len() && cur[j] == k;
                    if j < prev.len() {
                        assert(prev[j] == k);
                        assert(prev.contains(k));
                    }
                }
                if (k as nat) < n && ids.contains(k) {
                    if k == (n - 1) as usize {
                        assert(cur[cur.len() - 1] == k);
                    } else {
                        assert(prev.contains(k));
                        let j = choose|j: int| 0 <= j < prev.len() && prev[j] == k;
                        assert(cur[j] == k);
                    }
                }
            }
        }
    }
}

/// Past the largest key, a longer bound adds nothing.
pub proof fn lemma_keys_below_past(ids: Set<usize>, e: nat, n: nat)
    requires
        forall|k: usize| #[trigger] ids.contains(k) ==> (k as nat) < e,
        e <= n,
        n <= usize::MAX as nat + 1,
    ensures
        keys_below(ids, n) == keys_below(ids, e),
    decreases n,
{
    if n > e {
        lemma_keys_below_past(ids, e, (n - 1) as nat);
        assert(!ids.contains((n - 1) as usize));
    }
}

/// The lowest free slot is the only slot that is free with all below it taken.
pub proof fn lemma_lowest_free_unique(ids: Set<usize>, k: usize)
    requires
        is_lowest_free(ids, k),
    ensures
        lowest_free(ids) == k,
{
    let c = lowest_free(ids);
    assert(is_lowest_free(ids, c));
    if c < k {
        assert(ids.contains(c));
    } else if k < c {
        assert(ids.contains(k));
    }
}

/// A collection of user records, each under the identifier of the slot it
/// occupies. Freed slots are reused, the lowest first.
pub struct Arena {
    slots: Slab<UserRecord>,
}

impl View for Arena {
    type V = Set<usize>;

    /// The identifiers of the occupied slots.
    closed spec fn view(&self) -> Set<usize> {
        slab_keys(self.slots)
    }
}

impl Arena {
    /// The slot store is in the shape that its own operations keep.
    pub closed spec fn wf(&self) -> bool {
        slab_wf(self.slots)
    }

    /// An arena with no occupied slot.
    pub fn new() -> (r: Arena)
        ensures
            r.wf(),
            r@ == Set::<usize>::empty(),
    {
        Arena { slots: slab_new() }
    }

    /// The number of occupied slots.
    pub fn len(&self) -> (r: usize)
        requires
            self.wf(),
        ensures
            r == self@.len(),
            self@.finite(),
    {
        slab_len(&self.slots)
    }

    /// Stores `record` in the lowest free slot and returns that slot.
    pub fn insert(&mut self, record: UserRecord) -> (id: usize)
        requires
            old(self).wf(),
            old(self)@.len() < usize::MAX,
        ensures
            final(self).wf(),
            is_lowest_free(old(self)@, id),
            id == lowest_free(old(self)@),
            final(self)@ == old(self)@.insert(id),
    {
        let ghost keys0 = slab_keys(self.slots);
        let ghost ext0 = slab_extent(self.slots);
        proof {
            lemma_bounded_len(keys0, ext0);
        }
        let mut k: usize = 0;
        while slab_contains(&self.slots, k)
            invariant
                slab_keys(self.slots) == keys0,
                slab_extent(self.slots) == ext0,
                slab_wf(self.slots),
                full_below(keys0, k as int),
                k <= ext0,
            decreases ext0 - k,
        {
            k = k + 1;
        }
        // Occupy the slots ahead of `k` on the vacant list until `k` is next.
        let mut held: Vec<usize> = Vec::new();
        while slab_vacant_key(&self.slots) != k
            invariant
                slab_wf(self.slots),
                slab_extent(self.slots) == ext0,
                !slab_keys(self.slots).contains(k),
                full_below(keys0, k as int),
                k <= ext0,
                forall|x: usize|
                    #[trigger] slab_keys(self.slots).contains(x) <==> (keys0.contains(x) || exists|j: int|
                        0 <= j < held.len() && held@[j] == x),
                forall|j: int| 0 <= j < held.len() ==> !keys0.contains(#[trigger] held@[j]) && held@[j] != k,
                held@.no_duplicates(),
            decreases ext0 - slab_keys(self.slots).len(),
        {
            let ghost before = slab_keys(self.slots);
            let ghost hb = held@;
            proof {
                lemma_bounded_len(before, ext0);
            }
            let t = slab_insert(&mut self.slots, UserRecord);
            proof {
                lemma_bounded_len(slab_keys(self.slots), ext0);
            }
            held.push(t);
            proof {
                assert(held@[hb.len() as int] == t);
                assert forall|x: usize|
                    #[trigger] slab_keys(self.slots).contains(x) <==> (keys0.contains(x) || exists|j: int|
                        0 <= j < held.len() && held@[j] == x) by {
                    if exists|j: int| 0 <= j < hb.len() && hb[j] == x {
                        let j = choose|j: int| 0 <= j < hb.len() && hb[j] == x;
                        assert(held@[j] == x);
                    }
                    if exists|j: int| 0 <= j < held.len() && held@[j] == x {
                        let j = choose|j: int| 0 <= j < held.len() && held@[j] == x;
                        if j < hb.len() {
                            assert(hb[j] == x);
                            assert(before.contains(x));
                        }
                    }
                }
                assert forall|a: int, b: int| 0 <= a < b < held.len() implies held@[a] != held@[b] by {
                    if b == hb.len() {
                        assert(before.contains(hb[a]));
                    }
                }
            }
        }
        proof {
            if k == ext0 {
                assert(full_below(keys0, ext0 as int));
            }
        }
        let id = slab_insert(&mut self.slots, record);
        // Hand the slots taken above back.
        let mut i: usize = 0;
        while i < held.len()
            invariant
                slab_wf(self.slots),
                0 <= i <= held.len(),
                forall|x: usize|
                    #[trigger] slab_keys(self.slots).contains(x) <==> (keys0.contains(x) || x == k || exists|j: int|
                        i <= j < held.len() && held@[j] == x),
                forall|j: int| 0 <= j < held.len() ==> !keys0.contains(#[trigger] held@[j]) && held@[j] != k,
                held@.no_duplicates(),
            decreases held.len() - i,
        {
            let ghost before = slab_keys(self.slots);
            let t = held[i];
            assert(before.contains(t));
            let _ = slab_try_remove(&mut self.slots, t);
            i = i + 1;
            proof {
                assert forall|x: usize|
                    #[trigger] slab_keys(self.slots).contains(x) <==> (keys0.contains(x) || x == k || exists|j: int|
                        i <= j < held.len() && held@[j] == x) by {
                    if exists|j: int| (i - 1) <= j < held.len() && held@[j] == x {
                        let j = choose|j: int| (i - 1) <= j < held.len() && held@[j] == x;
                        if j >= i {
                            assert(held@[j] != held@[i - 1]);
                        }
                    }
                }
            }
        }
        proof {
            assert(slab_keys(self.slots) =~= keys0.insert(k));
            lemma_lowest_free_unique(keys0, k);
        }
        id
    }

    /// The record in slot `id`, if that slot is occupied.
    pub fn get(&self, id: usize) -> (r: Option<&UserRecord>)
        ensures
            r.is_some() == self@.contains(id),
    {
        slab_get(&self.slots, id)
    }

    /// Replaces the record in slot `id` if that slot is occupied; no slot is
    /// taken or freed either way.
    pub fn update(&mut self, id: usize, record: UserRecord) -> (r: bool)
        requires
            old(self).wf(),
        ensures
            final(self).wf(),
            r == old(self)@.contains(id),
            final(self)@ == old(self)@,
    {
        if slab_contains(&self.slots, id) {
            slab_set(&mut self.slots, id, record);
            true
        } else {
            false
        }
    }

    /// Frees slot `id` and hands back its record, if that slot is occupied.
    pub fn remove(&mut self, id: usize) -> (r: Option<UserRecord>)
        requires
            old(self).wf(),
        ensures
            final(self).wf(),
            r.is_some() == old(self)@.contains(id),
            final(self)@ == old(self)@.remove(id),
    {
        let r = slab_try_remove(&mut self.slots, id);
        proof {
            if r.is_none() {
                assert(old(self)@.remove(id) =~= old(self)@);
            }
        }
        r
    }

    /// The identifiers of the occupied slots, in ascending order: no
    /// identifier comes twice, and each occupied slot comes once.
    pub fn enumerate(&self) -> (r: Vec<usize>)
        requires
            self.wf(),
        ensures
            r@ == ordered_ids(self@),
            r@.no_duplicates(),
            r@.to_set() == self@,
    {
        let r = slab_ordered_keys(&self.slots);
        proof {
            let ids = slab_keys(self.slots);
            let e = slab_extent(self.slots);
            lemma_keys_below_past(ids, e as nat, usize::MAX as nat + 1);
            lemma_keys_below(ids, usize::MAX as nat + 1);
            assert(r@.to_set() =~= ids);
        }
        r
    }
}

} // verus!
