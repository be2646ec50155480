use vstd::prelude::*;

use crate::entity::VendorModel;
use crate::codec::MAX_RECORD_SIZE;
use crate::record::{lemma_small_vendor_fits, lemma_vendor_round_trip, vendor_bytes, vendor_from};
use crate::storage::lists_keys;
use crate::store::{lemma_largest_key_last, rating_sum, stored_values, with_rating, Store};

verus! {

/// What a create operation does to the counter: a success with identifier `id` takes the next
/// identifier and leaves it as the last one handed out; a failure leaves the counter alone.
pub open spec fn id_step(s0: Store, s1: Store, id: Option<u64>) -> bool {
    match id {
        Some(i) => s0.last_id() < u64::MAX && i == s0.next_id() && s1.last_id() == i,
        None => s1.last_id() == s0.last_id(),
    }
}

proof fn lemma_last_id_grows(states: Seq<Store>, ids: Seq<Option<u64>>, i: int, j: int)
    requires
        states.len() == ids.len() + 1,
        forall|k: int| 0 <= k < ids.len() ==> id_step(states[k], states[k + 1], #[trigger] ids[k]),
        0 <= i <= j < states.len(),
    ensures
        states[i].last_id() <= states[j].last_id(),
    decreases j - i,
{
    if i < j {
        lemma_last_id_grows(states, ids, i, j - 1);
        assert(id_step(states[j - 1], states[j], ids[j - 1]));
    }
}

/// Identifiers handed out one after another, whichever tables they go to, strictly increase:
/// no two successful creates ever get the same identifier.
pub proof fn lemma_ids_strictly_increase(states: Seq<Store>, ids: Seq<Option<u64>>)
    requires
        states.len() == ids.len() + 1,
        forall|k: int| 0 <= k < ids.len() ==> id_step(states[k], states[k + 1], #[trigger] ids[k]),
    ensures
        forall|i: int, j: int|
            0 <= i < j < ids.len() && ids[i] is Some && ids[j] is Some ==> (#[trigger] ids[i])->Some_0
                < (#[trigger] ids[j])->Some_0,
{
    assert forall|i: int, j: int|
        0 <= i < j < ids.len() && ids[i] is Some && ids[j] is Some implies (#[trigger] ids[i])->Some_0
        < (#[trigger] ids[j])->Some_0 by {
        assert(id_step(states[i], states[i + 1], ids[i]));
        assert(id_step(states[j], states[j + 1], ids[j]));
        lemma_last_id_grows(states, ids, i + 1, j);
    }
}

/// A feedback entry with rating `r` was recorded for vendor `vid`: the vendor's rating list
/// gained `r` at its end.
pub open spec fn rating_recorded(s0: Store, s1: Store, vid: u64, r: u64) -> bool {
    s0.stored_vendor(vid) matches Some(v) && s1.stored_vendor(vid) == Some(with_rating(v, r))
}

proof fn lemma_ratings_prefix(states: Seq<Store>, vid: u64, rs: Seq<u64>, k: int)
    requires
        states.len() == rs.len() + 1,
        states[0].stored_vendor(vid) matches Some(v) && v.ratings.len() == 0,
        forall|i: int|
            0 <= i < rs.len() ==> rating_recorded(states[i], states[i + 1], vid, #[trigger] rs[i]),
        0 <= k <= rs.len(),
    ensures
        states[k].stored_vendor(vid) matches Some(v) && v.ratings == rs.take(k),
    decreases k,
{
    if k == 0 {
        assert(rs.take(0) =~= Seq::<u64>::empty());
    } else {
        lemma_ratings_prefix(states, vid, rs, k - 1);
        assert(rating_recorded(states[k - 1], states[k], vid, rs[k - 1]));
        assert(rs.take(k - 1).push(rs[k - 1]) =~= rs.take(k));
    }
}

/// After feedback with ratings `rs` is recorded, one entry at a time, for a vendor that had
/// no ratings, the vendor's ratings are exactly `rs` and its average is their sum over their
/// number.
pub proof fn lemma_ratings_follow_feedback(states: Seq<Store>, vid: u64, rs: Seq<u64>)
    requires
        states.len() == rs.len() + 1,
        states[0].stored_vendor(vid) matches Some(v) && v.ratings.len() == 0,
        forall|i: int|
            0 <= i < rs.len() ==> rating_recorded(states[i], states[i + 1], vid, #[trigger] rs[i]),
    ensures
        states.last().stored_vendor(vid) matches Some(v) && v.ratings == rs,
        rs.len() > 0 ==> states.last().average_rating(vid) == Some(
            (rating_sum(rs), rs.len() as int),
        ),
{
    lemma_ratings_prefix(states, vid, rs, rs.len() as int);
    assert(rs.take(rs.len() as int) =~= rs);
}

/// Listing reads nothing but the stored records: two listings with no write in between give
/// the same vendors in the same order.
pub proof fn lemma_listing_stable(s0: Store, s1: Store)
    requires
        s1.same_as(&s0),
    ensures
        s0.all_vendors() == s1.all_vendors(),
{
}

/// In a well-formed store whose vendors can be listed, the vendor that `create_vendor` adds
/// is listed last, as it was created.
pub proof fn lemma_newest_vendor_listed_last(s0: Store, s1: Store, v: VendorModel)
    requires
        s0.wf(),
        exists|ks: Seq<u64>| lists_keys(ks, s0.vendor_rows()),
        s0.all_vendors() is Some,
        v.id == s0.next_id(),
        s0.last_id() < u64::MAX,
        vendor_bytes(v).len() <= MAX_RECORD_SIZE,
        s1.vendor_rows() == s0.vendor_rows().insert(v.id, vendor_bytes(v)),
    ensures
        s1.all_vendors() == Some(s0.all_vendors()->Some_0.push(v)),
{
    lemma_largest_key_last(s0.vendor_rows(), v.id, vendor_bytes(v));
    lemma_small_vendor_fits(v);
    lemma_vendor_round_trip(v);
    let rows = stored_values(s1.vendor_rows());
    assert(rows.drop_last() =~= stored_values(s0.vendor_rows()));
    assert(vendor_from(rows.last()) == Some(v));
}

} // verus!
