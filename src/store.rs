//! The slot store behind the arena: `slab::Slab`, described by three names.
use vstd::prelude::*;
use slab::Slab;

verus! {

/// A user record. It carries no data: every record has the same textual form.
#[derive(Clone, Copy, Debug, PartialEq, Eq, Structural)]
pub struct UserRecord;

/// The textual form of every record: `{}`.
pub open spec fn record_text() -> Seq<u8> {
    seq![123u8, 125u8]
}

impl UserRecord {
    /// The textual form of this record.
    pub fn to_text(&self) -> (r: Vec<u8>)
        ensures
            r@ == record_text(),
    {
        let r = vec![123u8, 125u8];
        assert(r@ =~= record_text());
        r
    }
}

#[verifier::external_type_specification]
#[verifier::external_body]
#[verifier::reject_recursive_types(T)]
pub struct ExSlab<T>(Slab<T>);

/// The keys of the occupied entries of a slab.
pub uninterp spec fn slab_keys(s: Slab<UserRecord>) -> Set<usize>;

/// The key that the next insertion into a slab takes (`Slab::vacant_key`).
pub uninterp spec fn slab_next(s: Slab<UserRecord>) -> usize;

/// The number of entries, occupied or vacant, that a slab holds.
pub uninterp spec fn slab_extent(s: Slab<UserRecord>) -> usize;

/// The keys of `keys` below `n`, in ascending order.
pub open spec fn keys_below(keys: Set<usize>, n: nat) -> Seq<usize>
    decreases n,
{
    if n == 0 {
        Seq::empty()
    } else if keys.contains((n - 1) as usize) {
        keys_below(keys, (n - 1) as nat).push((n - 1) as usize)
    } else {
        keys_below(keys, (n - 1) as nat)
    }
}

/// Every key below `n` is in `keys`.
pub open spec fn full_below(keys: Set<usize>, n: int) -> bool {
    forall|i: usize| (i as int) < n ==> #[trigger] keys.contains(i)
}

/// What holds of every slab that only `new`, `insert`, `try_remove` and
/// `IndexMut` have touched: occupied keys lie below the extent, and the next
/// key is vacant; it equals the extent exactly when no entry below is vacant.
pub open spec fn slab_wf(s: Slab<UserRecord>) -> bool {
    &&& slab_keys(s).finite()
    &&& forall|k: usize| #[trigger] slab_keys(s).contains(k) ==> k < slab_extent(s)
    &&& slab_next(s) <= slab_extent(s)
    &&& !slab_keys(s).contains(slab_next(s))
    &&& (slab_next(s) == slab_extent(s) <==> full_below(slab_keys(s), slab_extent(s) as int))
}

/// Relies on `Slab::new`: no entries, so the next key is 0.
#[verifier::external_body]
pub(crate) fn slab_new() -> (r: Slab<UserRecord>)
    ensures
        slab_keys(r) == Set::<usize>::empty(),
        slab_extent(r) == 0,
        slab_next(r) == 0,
        slab_wf(r),
{
    Slab::new()
}

/// Relies on `Slab::insert`: the value goes to the vacant key `next`; a key
/// equal to the extent appends an entry, any other pops it off the vacant list.
#[verifier::external_body]
pub(crate) fn slab_insert(s: &mut Slab<UserRecord>, v: UserRecord) -> (r: usize)
    requires
        slab_wf(*old(s)),
        slab_next(*old(s)) < usize::MAX,
    ensures
        r == slab_next(*old(s)),
        slab_keys(*final(s)) == slab_keys(*old(s)).insert(r),
        slab_extent(*final(s)) == if r == slab_extent(*old(s)) {
            (slab_extent(*old(s)) + 1) as usize
        } else {
            slab_extent(*old(s))
        },
        slab_wf(*final(s)),
{
    s.insert(v)
}

/// Relies on `Slab::vacant_key`: the key that the next insertion takes.
#[verifier::external_body]
pub(crate) fn slab_vacant_key(s: &Slab<UserRecord>) -> (r: usize)
    ensures
        r == slab_next(*s),
{
    s.vacant_key()
}

/// Relies on `Slab::contains`: whether the entry at `key` is occupied.
#[verifier::external_body]
pub(crate) fn slab_contains(s: &Slab<UserRecord>, key: usize) -> (r: bool)
    ensures
        r == slab_keys(*s).contains(key),
{
    s.contains(key)
}

/// Relies on `Slab::try_remove`: an occupied entry becomes vacant and the head
/// of the vacant list; any other key leaves the slab as it was.
#[verifier::external_body]
pub(crate) fn slab_try_remove(s: &mut Slab<UserRecord>, key: usize) -> (r: Option<UserRecord>)
    requires
        slab_wf(*old(s)),
    ensures
        r.is_some() == slab_keys(*old(s)).contains(key),
        r.is_some() ==> {
            &&& slab_keys(*final(s)) == slab_keys(*old(s)).remove(key)
            &&& slab_next(*final(s)) == key
            &&& slab_extent(*final(s)) == slab_extent(*old(s))
        },
        r.is_none() ==> *final(s) == *old(s),
        slab_wf(*final(s)),
{
    s.try_remove(key)
}

/// Relies on `Slab::get`: a record exactly for an occupied key.
#[verifier::external_body]
pub(crate) fn slab_get(s: &Slab<UserRecord>, key: usize) -> (r: Option<&UserRecord>)
    ensures
        r.is_some() == slab_keys(*s).contains(key),
{
    s.get(key)
}

/// Relies on `IndexMut for Slab`: overwrites the value of an occupied entry,
/// which leaves every entry occupied or vacant as it was.
#[verifier::external_body]
pub(crate) fn slab_set(s: &mut Slab<UserRecord>, key: usize, v: UserRecord)
    requires
        slab_keys(*old(s)).contains(key),
    ensures
        slab_keys(*final(s)) == slab_keys(*old(s)),
        slab_next(*final(s)) == slab_next(*old(s)),
        slab_extent(*final(s)) == slab_extent(*old(s)),
{
    s[key] = v;
}

/// Relies on `Slab::len`: the number of occupied entries.
#[verifier::external_body]
pub(crate) fn slab_len(s: &Slab<UserRecord>) -> (r: usize)
    requires
        slab_wf(*s),
    ensures
        r == slab_keys(*s).len(),
{
    s.len()
}

/// Relies on `Slab::iter`: it walks the entries in index order and yields the
/// occupied ones.
#[verifier::external_body]
pub(crate) fn slab_ordered_keys(s: &Slab<UserRecord>) -> (r: Vec<usize>)
    ensures
        r@ == keys_below(slab_keys(*s), slab_extent(*s) as nat),
{
    s.iter().map(|(k, _)| k).collect()
}

} // verus!
