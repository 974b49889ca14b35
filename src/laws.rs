//! Laws of the arena and the dispatcher, stated over their specifications.
use vstd::prelude::*;
use crate::arena::{is_lowest_free, lemma_keys_below, lemma_slots_below, lowest_free, ordered_ids, slots_below};
use crate::router::{all_digits, digits_value, index_htm_path, route_of, user_prefix, users_path, Method, Route};
use crate::service::{outcome, Status};
use crate::store::{full_below, record_text};
use crate::text::{decimal, digit_byte};

verus! {

/// No identifier is listed twice, and the listing holds exactly the occupied
/// identifiers.
pub proof fn lemma_listing_distinct(ids: Set<usize>)
    ensures
        ordered_ids(ids).no_duplicates(),
        ordered_ids(ids).to_set() == ids,
{
    lemma_keys_below(ids, usize::MAX as nat + 1);
    assert(ordered_ids(ids).to_set() =~= ids);
}

/// Where slot `k` is free, there is a lowest free slot, and it is not above `k`.
pub proof fn lemma_lowest_free_exists(ids: Set<usize>, k: usize)
    requires
        !ids.contains(k),
    ensures
        is_lowest_free(ids, lowest_free(ids)),
        lowest_free(ids) <= k,
    decreases k,
{
    if full_below(ids, k as int) {
        assert(is_lowest_free(ids, k));
        let c = lowest_free(ids);
        if k < c {
            assert(ids.contains(k));
        }
    } else {
        let i = choose|i: usize| i < k && !ids.contains(i);
        lemma_lowest_free_exists(ids, i);
    }
}

/// An arena with fewer than `usize::MAX` occupied slots has a free one.
pub proof fn lemma_room_for_one(ids: Set<usize>)
    requires
        ids.finite(),
        ids.len() < usize::MAX,
    ensures
        is_lowest_free(ids, lowest_free(ids)),
{
    lemma_slots_below(usize::MAX as nat);
    if full_below(ids, usize::MAX as int) {
        assert(slots_below(usize::MAX as nat).subset_of(ids));
        vstd::set_lib::lemma_len_subset(slots_below(usize::MAX as nat), ids);
    } else {
        let k = choose|k: usize| (k as int) < usize::MAX && !ids.contains(k);
        lemma_lowest_free_exists(ids, k);
    }
}

/// Once slot `id` is freed, the next insertion takes it again exactly when
/// every slot below it is occupied; otherwise it takes a lower free slot.
pub proof fn lemma_reuse(ids: Set<usize>, id: usize)
    requires
        ids.contains(id),
    ensures
        is_lowest_free(ids.remove(id), lowest_free(ids.remove(id))),
        lowest_free(ids.remove(id)) <= id,
        lowest_free(ids.remove(id)) == id <==> full_below(ids, id as int),
{
    let after = ids.remove(id);
    lemma_lowest_free_exists(after, id);
    if full_below(ids, id as int) {
        assert(full_below(after, id as int));
    }
}

/// A decimal form is a nonempty run of digits that writes its number.
pub proof fn lemma_decimal_digits(n: nat)
    ensures
        decimal(n).len() > 0,
        all_digits(decimal(n)),
        digits_value(decimal(n)) == n,
    decreases n,
{
    if n >= 10 {
        lemma_decimal_digits(n / 10);
        assert(decimal(n).drop_last() =~= decimal(n / 10));
        assert(n == (n / 10) * 10 + n % 10);
        let last = decimal(n).last();
        assert(last == digit_byte(n % 10));
        assert(last - 48 == n % 10);
        assert(digits_value(decimal(n)) == digits_value(decimal(n / 10)) * 10 + (last - 48) as nat);
    } else {
        assert(decimal(n).drop_last() =~= Seq::<u8>::empty());
        assert(decimal(n).last() - 48 == n);
        assert(digits_value(decimal(n)) == digits_value(decimal(n).drop_last()) * 10 + (decimal(n).last() - 48) as nat);
    }
}

/// `/user/` followed by the decimal form of `id` names user `id`.
pub proof fn lemma_user_path(id: usize)
    ensures
        route_of(user_prefix() + decimal(id as nat)) == Route::User(Some(id)),
{
    let p = user_prefix() + decimal(id as nat);
    lemma_decimal_digits(id as nat);
    assert(p.subrange(0, 6) =~= user_prefix());
    assert(p.subrange(6, p.len() as int) =~= decimal(id as nat));
    assert(p[1] != index_htm_path()[1]);
    assert(p[5] != users_path()[5]);
    assert(p.len() != 1);
}

/// A record created through `POST /user/` is readable and replaceable at the
/// path of the identifier that came back; deleting it makes that path absent.
pub proof fn lemma_crud_round_trip(ids: Set<usize>)
    requires
        ids.finite(),
        ids.len() < usize::MAX,
    ensures
        ({
            let k = lowest_free(ids);
            let (s1, b1, ids1) = outcome(Method::Post, user_prefix(), ids);
            let p = user_prefix() + decimal(k as nat);
            &&& s1 == Status::Success
            &&& b1 == decimal(k as nat)
            &&& ids1 == ids.insert(k)
            &&& outcome(Method::Get, p, ids1) == (Status::Success, record_text(), ids1)
            &&& outcome(Method::Put, p, ids1) == (Status::Success, Seq::<u8>::empty(), ids1)
            &&& outcome(Method::Delete, p, ids1) == (Status::Success, Seq::<u8>::empty(), ids)
            &&& outcome(Method::Get, p, ids) == (Status::NotFound, Seq::<u8>::empty(), ids)
        }),
{
    let k = lowest_free(ids);
    lemma_room_for_one(ids);
    lemma_user_path(k);
    assert(route_of(user_prefix()) == Route::User(None)) by {
        assert(user_prefix().subrange(0, 6) =~= user_prefix());
        assert(user_prefix()[1] != index_htm_path()[1]);
        assert(user_prefix()[5] != users_path()[5]);
    }
    assert(ids.insert(k).remove(k) =~= ids);
}

/// A request answered with "method not allowed" leaves the arena as it was,
/// so repeating it gives the same answer again.
pub proof fn lemma_method_not_allowed_idempotent(m: Method, path: Seq<u8>, ids: Set<usize>)
    ensures
        outcome(m, path, ids).0 == Status::MethodNotAllowed ==> {
            &&& outcome(m, path, ids).2 == ids
            &&& outcome(m, path, outcome(m, path, ids).2) == outcome(m, path, ids)
        },
{
}

/// `/users` and `/users/` name the collection, whatever the method: the answer
/// is the listing or "method not allowed", and the arena stays as it was.
pub proof fn lemma_users_route(m: Method, ids: Set<usize>)
    ensures
        route_of(users_path()) == Route::Users,
        route_of(users_path().push(47u8)) == Route::Users,
        outcome(m, users_path(), ids).0 == Status::Success || outcome(m, users_path(), ids).0
            == Status::MethodNotAllowed,
        outcome(m, users_path(), ids).2 == ids,
{
    let slash = users_path().push(47u8);
    assert(users_path().len() == 6);
    assert(users_path()[1] != index_htm_path()[1]);
    assert(slash[1] != index_htm_path()[1]);
    assert(slash.len() == 7);
}

} // verus!
