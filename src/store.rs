use vstd::prelude::*;

use crate::codec::MAX_RECORD_SIZE;
use crate::entity::{
    strings_view, Contract, ContractModel, CreateContractPayload, CreateFeedbackPayload,
    CreateServicePayload, CreateVendorPayload, Feedback, FeedbackModel, Message, Service,
    ServiceModel, Vendor, VendorModel,
};
use crate::record::{
    feedback_fits, lemma_feedback_round_trip, lemma_small_vendor_fits, lemma_vendor_round_trip,
    contract_bytes, contract_from, decode_contract, decode_feedback, decode_service,
    decode_vendor, encode_contract, encode_feedback, encode_service, encode_vendor, feedback_bytes,
    feedback_from, service_bytes, service_from, vendor_bytes, vendor_from,
};
use crate::storage::{cell_value, lists_keys, table_rows, IdCell, Regions, Table};

verus! {

/// Region of the identifier counter.
pub const ID_REGION: u8 = 0;

/// Region of the vendor table.
pub const VENDOR_REGION: u8 = 10;

/// Region of the service table.
pub const SERVICE_REGION: u8 = 11;

/// Region of the contract table.
pub const CONTRACT_REGION: u8 = 12;

/// Region of the feedback table.
pub const FEEDBACK_REGION: u8 = 13;

/// Highest accepted rating, in thousandths of a point.
pub const MAX_RATING: i64 = 5000;

/// The keys of `m` in ascending order.
pub open spec fn key_order(m: Map<u64, Seq<u8>>) -> Seq<u64> {
    choose|ks: Seq<u64>| lists_keys(ks, m)
}

/// The records of `m` in ascending key order.
pub open spec fn stored_values(m: Map<u64, Seq<u8>>) -> Seq<Seq<u8>> {
    key_order(m).map_values(|k: u64| m[k])
}

/// Decodes every record of `rows` and keeps those that satisfy `keep`, in order; `None` if one
/// of them does not decode.
pub open spec fn select_all<T>(
    rows: Seq<Seq<u8>>,
    dec: spec_fn(Seq<u8>) -> Option<T>,
    keep: spec_fn(T) -> bool,
) -> Option<Seq<T>>
    decreases rows.len(),
{
    if rows.len() == 0 {
        Some(Seq::empty())
    } else {
        match select_all(rows.drop_last(), dec, keep) {
            None => None,
            Some(xs) => match dec(rows.last()) {
                None => None,
                Some(x) => if keep(x) {
                    Some(xs.push(x))
                } else {
                    Some(xs)
                },
            },
        }
    }
}

proof fn lemma_select_all_none<T>(
    rows: Seq<Seq<u8>>,
    i: int,
    dec: spec_fn(Seq<u8>) -> Option<T>,
    keep: spec_fn(T) -> bool,
)
    requires
        0 <= i <= rows.len(),
        select_all(rows.take(i), dec, keep) is None,
    ensures
        select_all(rows, dec, keep) is None,
    decreases rows.len() - i,
{
    if i < rows.len() {
        assert(rows.take(i + 1).drop_last() =~= rows.take(i));
        lemma_select_all_none(rows, i + 1, dec, keep);
    } else {
        assert(rows.take(i) =~= rows);
    }
}

/// Two ascending listings of the same keys are the same listing.
pub proof fn lemma_lists_keys_unique(a: Seq<u64>, b: Seq<u64>, m: Map<u64, Seq<u8>>)
    requires
        lists_keys(a, m),
        lists_keys(b, m),
    ensures
        a == b,
    decreases a.len(),
{
    if a.len() == 0 {
        if b.len() > 0 {
            assert(m.contains_key(b[0]));
            assert(a.contains(b[0]));
        }
        assert(a =~= b);
    } else {
        assert(m.contains_key(a[0]));
        assert(b.contains(a[0]));
        let x = a[0];
        let y = b[0];
        let j = choose|j: int| 0 <= j < b.len() && b[j] == x;
        assert(m.contains_key(y));
        assert(a.contains(y));
        let i = choose|i: int| 0 <= i < a.len() && a[i] == y;
        if j > 0 {
            assert(y < x);
            assert(i > 0 ==> x < y);
        }
        assert(x == y);
        let m2 = m.remove(x);
        let a2 = a.drop_first();
        let b2 = b.drop_first();
        assert forall|k: u64| m2.contains_key(k) implies a2.contains(k) && b2.contains(k) by {
            assert(a.contains(k));
            assert(b.contains(k));
            let ia = choose|ia: int| 0 <= ia < a.len() && a[ia] == k;
            let ib = choose|ib: int| 0 <= ib < b.len() && b[ib] == k;
            assert(a2[ia - 1] == k);
            assert(b2[ib - 1] == k);
        }
        assert forall|t: int| 0 <= t < a2.len() implies m2.contains_key(#[trigger] a2[t]) by {
            assert(a[t + 1] == a2[t]);
            assert(a[0] < a[t + 1]);
        }
        assert forall|t: int| 0 <= t < b2.len() implies m2.contains_key(#[trigger] b2[t]) by {
            assert(b[t + 1] == b2[t]);
            assert(b[0] < b[t + 1]);
        }
        assert(lists_keys(a2, m2));
        assert(lists_keys(b2, m2));
        lemma_lists_keys_unique(a2, b2, m2);
        assert(a =~= seq![x] + a2);
        assert(b =~= seq![x] + b2);
    }
}

/// A record stored under a key above every stored key comes last in key order.
pub proof fn lemma_largest_key_last(m: Map<u64, Seq<u8>>, k: u64, b: Seq<u8>)
    requires
        exists|ks: Seq<u64>| lists_keys(ks, m),
        forall|j: u64| m.contains_key(j) ==> j < k,
    ensures
        stored_values(m.insert(k, b)) == stored_values(m).push(b),
        lists_keys(key_order(m).push(k), m.insert(k, b)),
{
    let m1 = m.insert(k, b);
    let ks0 = key_order(m);
    let ks1 = ks0.push(k);
    assert(lists_keys(ks0, m));
    assert forall|j: u64| m1.contains_key(j) implies ks1.contains(j) by {
        if j != k {
            assert(ks0.contains(j));
            let i = choose|i: int| 0 <= i < ks0.len() && ks0[i] == j;
            assert(ks1[i] == j);
        } else {
            assert(ks1[ks0.len() as int] == k);
        }
    }
    assert forall|i: int, j: int| 0 <= i < j < ks1.len() implies ks1[i] < ks1[j] by {
        if j == ks0.len() {
            assert(m.contains_key(ks0[i]));
        }
    }
    assert forall|i: int| 0 <= i < ks1.len() implies m1.contains_key(#[trigger] ks1[i]) by {
        if i < ks0.len() {
            assert(m.contains_key(ks0[i]));
        }
    }
    assert(lists_keys(ks1, m1));
    lemma_lists_keys_unique(ks1, key_order(m1), m1);
    assert forall|i: int| 0 <= i < ks0.len() implies ks0[i] != k by {
        assert(m.contains_key(ks0[i]));
    }
    assert(stored_values(m1) =~= stored_values(m).push(b));
}

proof fn lemma_select_all_push<T>(
    rows: Seq<Seq<u8>>,
    b: Seq<u8>,
    dec: spec_fn(Seq<u8>) -> Option<T>,
    keep: spec_fn(T) -> bool,
)
    ensures
        select_all(rows.push(b), dec, keep) == match select_all(rows, dec, keep) {
            None => None,
            Some(xs) => match dec(b) {
                None => None,
                Some(x) => if keep(x) {
                    Some(xs.push(x))
                } else {
                    Some(xs)
                },
            },
        },
{
    assert(rows.push(b).drop_last() =~= rows);
}

/// Where every record decodes and none is kept, the selection is empty.
proof fn lemma_select_none_kept<T>(
    rows: Seq<Seq<u8>>,
    dec: spec_fn(Seq<u8>) -> Option<T>,
    every: spec_fn(T) -> bool,
    keep: spec_fn(T) -> bool,
    all: Seq<T>,
)
    requires
        forall|x: T| #[trigger] every(x),
        select_all(rows, dec, every) == Some(all),
        forall|i: int| 0 <= i < all.len() ==> !keep(#[trigger] all[i]),
    ensures
        select_all(rows, dec, keep) == Some(Seq::<T>::empty()),
    decreases rows.len(),
{
    if rows.len() > 0 {
        let init = rows.drop_last();
        let prev = select_all(init, dec, every)->Some_0;
        let x = dec(rows.last())->Some_0;
        assert(every(x));
        assert(all == prev.push(x));
        assert forall|i: int| 0 <= i < prev.len() implies !keep(#[trigger] prev[i]) by {
            assert(all[i] == prev[i]);
        }
        lemma_select_none_kept(init, dec, every, keep, prev);
        assert(!keep(all[all.len() - 1]));
    }
}

proof fn lemma_counts_follow_rows(s0: Store, s1: Store)
    requires
        s0.ratings_consistent(),
        s1.vendor_rows() == s0.vendor_rows(),
        s1.feedback_rows() == s0.feedback_rows(),
    ensures
        s1.ratings_consistent(),
{
    let ks = choose|ks: Seq<u64>| lists_keys(ks, s0.feedback_rows());
    assert(lists_keys(ks, s1.feedback_rows()));
    assert(s1.all_feedback() == s0.all_feedback());
    assert forall|vid: u64| #[trigger] s1.vendor_rows().contains_key(vid) implies counts_agree(
        s1.stored_vendor(vid),
        s1.feedback_of(vid),
    ) by {
        assert(s0.vendor_rows().contains_key(vid));
    }
}

proof fn lemma_new_vendor_keeps_counts(s0: Store, s1: Store, v: VendorModel)
    requires
        s0.wf(),
        s0.ratings_consistent(),
        s0.last_id() < u64::MAX,
        v.id == s0.next_id(),
        v.ratings.len() == 0,
        vendor_bytes(v).len() <= MAX_RECORD_SIZE,
        s1.vendor_rows() == s0.vendor_rows().insert(v.id, vendor_bytes(v)),
        s1.feedback_rows() == s0.feedback_rows(),
    ensures
        s1.ratings_consistent(),
{
    lemma_small_vendor_fits(v);
    lemma_vendor_round_trip(v);
    let all = s0.all_feedback()->Some_0;
    let rows = stored_values(s0.feedback_rows());
    assert(s1.all_feedback() == s0.all_feedback());
    let keep = |x: FeedbackModel| x.vendor_id == v.id;
    assert forall|i: int| 0 <= i < all.len() implies !keep(#[trigger] all[i]) by {
        assert(s0.vendor_rows().contains_key(all[i].vendor_id));
    }
    lemma_select_none_kept(rows, |b: Seq<u8>| feedback_from(b), |x: FeedbackModel| true, keep, all);
    assert forall|vid: u64| #[trigger] s1.vendor_rows().contains_key(vid) implies counts_agree(
        s1.stored_vendor(vid),
        s1.feedback_of(vid),
    ) by {
        if vid != v.id {
            assert(s0.vendor_rows().contains_key(vid));
            assert(s1.stored_vendor(vid) == s0.stored_vendor(vid));
        } else {
            assert(s1.stored_vendor(vid) == Some(v));
            assert(s1.feedback_of(vid) == select_all(rows, |b: Seq<u8>| feedback_from(b), keep));
        }
    }
    let ks = choose|ks: Seq<u64>| lists_keys(ks, s0.feedback_rows());
    assert(lists_keys(ks, s1.feedback_rows()));
}

#[verifier::rlimit(60)]
proof fn lemma_new_feedback_keeps_counts(s0: Store, s1: Store, f: FeedbackModel, ov: VendorModel)
    requires
        s0.wf(),
        s0.ratings_consistent(),
        s0.last_id() < u64::MAX,
        f.id == s0.next_id(),
        s0.stored_vendor(f.vendor_id) == Some(ov),
        feedback_bytes(f).len() <= MAX_RECORD_SIZE,
        s1.feedback_rows() == s0.feedback_rows().insert(f.id, feedback_bytes(f)),
        s1.vendor_rows() == s0.vendor_rows().insert(
            f.vendor_id,
            vendor_bytes(with_rating(ov, f.rating)),
        ),
        s1.stored_vendor(f.vendor_id) == Some(with_rating(ov, f.rating)),
    ensures
        s1.ratings_consistent(),
{
    assert(feedback_fits(f));
    lemma_feedback_round_trip(f);
    let m0 = s0.feedback_rows();
    let b = feedback_bytes(f);
    let dec = |b: Seq<u8>| feedback_from(b);
    let every = |x: FeedbackModel| true;
    assert forall|j: u64| m0.contains_key(j) implies j < f.id by {}
    lemma_largest_key_last(m0, f.id, b);
    let rows0 = stored_values(m0);
    assert(stored_values(s1.feedback_rows()) == rows0.push(b));
    assert(dec(b) == Some(f));
    lemma_select_all_push(rows0, b, dec, every);
    let all0 = s0.all_feedback()->Some_0;
    assert(s1.all_feedback() == Some(all0.push(f)));
    assert(s0.vendor_rows().contains_key(f.vendor_id));
    assert forall|i: int| 0 <= i < s1.all_feedback()->Some_0.len() implies s1.vendor_rows().contains_key(
        (#[trigger] s1.all_feedback()->Some_0[i]).vendor_id,
    ) by {
        if i < all0.len() {
            assert(s1.all_feedback()->Some_0[i] == all0[i]);
            assert(s0.vendor_rows().contains_key(all0[i].vendor_id));
        }
    }
    assert forall|vid: u64| #[trigger] s1.vendor_rows().contains_key(vid) implies counts_agree(
        s1.stored_vendor(vid),
        s1.feedback_of(vid),
    ) by {
        lemma_select_all_push(rows0, b, dec, |x: FeedbackModel| x.vendor_id == vid);
        assert(s0.vendor_rows().contains_key(vid));
        assert(counts_agree(s0.stored_vendor(vid), s0.feedback_of(vid)));
        if vid != f.vendor_id {
            assert(s1.stored_vendor(vid) == s0.stored_vendor(vid));
        }
    }
    assert(lists_keys(key_order(m0).push(f.id), s1.feedback_rows()));
}

/// The entries of `t` in ascending key order.
fn ordered_entries(t: &Table) -> (r: Vec<(u64, Vec<u8>)>)
    ensures
        r@.len() == stored_values(table_rows(*t)).len(),
        forall|i: int|
            0 <= i < r@.len() ==> (#[trigger] r@[i]).1@ == stored_values(table_rows(*t))[i],
{
    let r = t.entries();
    proof {
        let m = table_rows(*t);
        let ks = r@.map_values(|e: (u64, Vec<u8>)| e.0);
        assert(lists_keys(ks, m));
        lemma_lists_keys_unique(ks, key_order(m), m);
        assert forall|i: int| 0 <= i < r@.len() implies (#[trigger] r@[i]).1@ == stored_values(
            m,
        )[i] by {
            assert(ks[i] == r@[i].0);
        }
    }
    r
}

/// The record store: one identifier counter shared by four tables.
pub struct Store {
    pub ids: IdCell,
    pub vendors: Table,
    pub services: Table,
    pub contracts: Table,
    pub feedback: Table,
}

pub open spec fn vendor_payload_ok(p: CreateVendorPayload) -> bool {
    p.name@.len() > 0 && p.contact@.len() > 0 && p.email@.len() > 0
}

/// The vendor that `create_vendor` builds.
pub open spec fn new_vendor(id: u64, p: CreateVendorPayload, now: u64) -> VendorModel {
    VendorModel {
        id,
        name: p.name@,
        services: strings_view(p.services@),
        contact: p.contact@,
        email: p.email@,
        address: p.address@,
        ratings: Seq::empty(),
        created_at: now,
    }
}

/// Every key of `m` is at most `bound`.
pub open spec fn keys_at_most(m: Map<u64, Seq<u8>>, bound: u64) -> bool {
    forall|k: u64| m.contains_key(k) ==> k <= bound
}

/// A stored vendor with as many ratings as there are feedback entries for it.
pub open spec fn counts_agree(v: Option<VendorModel>, fs: Option<Seq<FeedbackModel>>) -> bool {
    match (v, fs) {
        (Some(v), Some(fs)) => fs.len() == v.ratings.len(),
        _ => false,
    }
}

pub open spec fn fits(b: Seq<u8>) -> bool {
    b.len() <= MAX_RECORD_SIZE
}

pub open spec fn service_payload_ok(p: CreateServicePayload) -> bool {
    p.name@.len() > 0 && p.description@.len() > 0 && p.price > 0
}

/// The service that `create_service` builds.
pub open spec fn new_service(id: u64, p: CreateServicePayload) -> ServiceModel {
    ServiceModel {
        id,
        vendor_id: p.vendor_id,
        name: p.name@,
        description: p.description@,
        price: p.price,
        is_available: true,
    }
}

pub open spec fn contract_payload_ok(p: CreateContractPayload) -> bool {
    p.vendor_id != 0 && p.department_id != 0 && p.start_date != 0 && p.end_date != 0
}

/// The contract that `create_contract` builds.
pub open spec fn new_contract(id: u64, p: CreateContractPayload) -> ContractModel {
    ContractModel {
        id,
        vendor_id: p.vendor_id,
        department_id: p.department_id,
        start_date: p.start_date,
        end_date: p.end_date,
        terms: p.terms@,
        is_active: true,
    }
}

pub open spec fn feedback_payload_ok(p: CreateFeedbackPayload) -> bool {
    p.vendor_id != 0 && p.user_id != 0 && 0 <= p.rating <= MAX_RATING
}

/// The feedback entry that `create_feedback` builds.
pub open spec fn new_feedback(id: u64, p: CreateFeedbackPayload, now: u64) -> FeedbackModel {
    FeedbackModel {
        id,
        vendor_id: p.vendor_id,
        user_id: p.user_id,
        rating: p.rating as u64,
        comment: p.comment@,
        timestamp: now,
    }
}

/// `v` with one more rating at the end of its list.
pub open spec fn with_rating(v: VendorModel, rating: u64) -> VendorModel {
    VendorModel { ratings: v.ratings.push(rating), ..v }
}

pub open spec fn rating_sum(rs: Seq<u64>) -> int
    decreases rs.len(),
{
    if rs.len() == 0 {
        0
    } else {
        rating_sum(rs.drop_last()) + rs.last()
    }
}


impl Store {
    /// The last identifier handed out.
    pub open spec fn last_id(&self) -> u64 {
        cell_value(self.ids)
    }

    /// The identifier that the next successful create takes.
    pub open spec fn next_id(&self) -> u64 {
        (self.last_id() + 1) as u64
    }

    pub open spec fn vendor_rows(&self) -> Map<u64, Seq<u8>> {
        table_rows(self.vendors)
    }

    pub open spec fn service_rows(&self) -> Map<u64, Seq<u8>> {
        table_rows(self.services)
    }

    pub open spec fn contract_rows(&self) -> Map<u64, Seq<u8>> {
        table_rows(self.contracts)
    }

    pub open spec fn feedback_rows(&self) -> Map<u64, Seq<u8>> {
        table_rows(self.feedback)
    }

    /// No table holds a key above the last identifier handed out, so the next identifier is
    /// unused everywhere.
    pub open spec fn wf(&self) -> bool {
        &&& keys_at_most(self.vendor_rows(), self.last_id())
        &&& keys_at_most(self.service_rows(), self.last_id())
        &&& keys_at_most(self.contract_rows(), self.last_id())
        &&& keys_at_most(self.feedback_rows(), self.last_id())
    }

    /// No table holds the key `id`.
    pub open spec fn id_unused(&self, id: u64) -> bool {
        &&& !self.vendor_rows().contains_key(id)
        &&& !self.service_rows().contains_key(id)
        &&& !self.contract_rows().contains_key(id)
        &&& !self.feedback_rows().contains_key(id)
    }

    /// Both stores hold the same counter and the same records.
    pub open spec fn same_as(&self, o: &Store) -> bool {
        &&& self.last_id() == o.last_id()
        &&& self.vendor_rows() == o.vendor_rows()
        &&& self.service_rows() == o.service_rows()
        &&& self.contract_rows() == o.contract_rows()
        &&& self.feedback_rows() == o.feedback_rows()
    }

    /// The vendor stored under `id`, if one is stored there and decodes.
    pub open spec fn stored_vendor(&self, id: u64) -> Option<VendorModel> {
        if self.vendor_rows().contains_key(id) {
            vendor_from(self.vendor_rows()[id])
        } else {
            None
        }
    }

    /// Every vendor, in ascending identifier order; `None` if a record does not decode.
    pub open spec fn all_vendors(&self) -> Option<Seq<VendorModel>> {
        select_all(
            stored_values(self.vendor_rows()),
            |b: Seq<u8>| vendor_from(b),
            |v: VendorModel| true,
        )
    }

    /// The services of vendor `vid`, in ascending identifier order; `None` if a service record
    /// does not decode.
    pub open spec fn services_of(&self, vid: u64) -> Option<Seq<ServiceModel>> {
        select_all(
            stored_values(self.service_rows()),
            |b: Seq<u8>| service_from(b),
            |x: ServiceModel| x.vendor_id == vid,
        )
    }

    /// The contracts of vendor `vid`, in ascending identifier order.
    pub open spec fn contracts_of(&self, vid: u64) -> Option<Seq<ContractModel>> {
        select_all(
            stored_values(self.contract_rows()),
            |b: Seq<u8>| contract_from(b),
            |x: ContractModel| x.vendor_id == vid,
        )
    }

    /// The feedback entries of vendor `vid`, in ascending identifier order.
    pub open spec fn feedback_of(&self, vid: u64) -> Option<Seq<FeedbackModel>> {
        select_all(
            stored_values(self.feedback_rows()),
            |b: Seq<u8>| feedback_from(b),
            |x: FeedbackModel| x.vendor_id == vid,
        )
    }

    /// Every feedback entry, in ascending identifier order; `None` if a record does not decode.
    pub open spec fn all_feedback(&self) -> Option<Seq<FeedbackModel>> {
        select_all(
            stored_values(self.feedback_rows()),
            |b: Seq<u8>| feedback_from(b),
            |x: FeedbackModel| true,
        )
    }

    /// Each feedback entry names a stored vendor, and each stored vendor has as many ratings as
    /// there are feedback entries for it.
    pub open spec fn ratings_consistent(&self) -> bool {
        &&& exists|ks: Seq<u64>| lists_keys(ks, self.feedback_rows())
        &&& self.all_feedback() is Some
        &&& forall|i: int|
            0 <= i < self.all_feedback()->Some_0.len() ==> self.vendor_rows().contains_key(
                (#[trigger] self.all_feedback()->Some_0[i]).vendor_id,
            )
        &&& forall|vid: u64| #[trigger]
            self.vendor_rows().contains_key(vid) ==> counts_agree(
                self.stored_vendor(vid),
                self.feedback_of(vid),
            )
    }

    /// The sum and the number of the ratings of vendor `vid`, where it is stored and has at
    /// least one rating: their mean is the vendor's average rating.
    pub open spec fn average_rating(&self, vid: u64) -> Option<(int, int)> {
        match self.stored_vendor(vid) {
            Some(v) => if v.ratings.len() > 0 {
                Some((rating_sum(v.ratings), v.ratings.len() as int))
            } else {
                None
            },
            None => None,
        }
    }

    /// Opens the store over the regions of `regions`, keeping what they already hold.
    /// `None` where the counter's region holds a layout this store cannot read.
    pub(crate) fn open(regions: &Regions) -> (r: Option<Store>) {
        let ids = match IdCell::open(regions, ID_REGION) {
            Some(c) => c,
            None => return None,
        };
        Some(
            Store {
                ids,
                vendors: Table::open(regions, VENDOR_REGION),
                services: Table::open(regions, SERVICE_REGION),
                contracts: Table::open(regions, CONTRACT_REGION),
                feedback: Table::open(regions, FEEDBACK_REGION),
            },
        )
    }

    /// Opens a store over the platform's default memory.
    ///
    /// On-chain that memory is the canister's one stable memory, so call this once per process
    /// and keep the store: a second store would share its tables with the first.
    pub fn init() -> (r: Option<Store>) {
        let regions = Regions::new();
        Store::open(&regions)
    }

    /// The current value of the identifier counter.
    pub fn last_allocated_id(&self) -> (r: u64)
        ensures
            r == self.last_id(),
    {
        self.ids.get()
    }

    /// Records a new vendor with no ratings, under the next identifier.
    #[verifier::rlimit(60)]
    pub fn create_vendor(&mut self, payload: CreateVendorPayload, now: u64) -> (r: Result<
        Vendor,
        Message,
    >)
        requires
            old(self).last_id() < u64::MAX,
        ensures
            r matches Err(Message::InvalidPayload(_)) <==> !vendor_payload_ok(payload) || !fits(
                vendor_bytes(new_vendor(old(self).next_id(), payload, now)),
            ),
            vendor_payload_ok(payload) && fits(
                vendor_bytes(new_vendor(old(self).next_id(), payload, now)),
            ) ==> r is Ok,
            r is Err ==> final(self).same_as(old(self)),
            old(self).wf() ==> final(self).wf(),
            old(self).wf() && old(self).ratings_consistent() ==> final(self).ratings_consistent(),
            !vendor_payload_ok(payload) ==> (r matches Err(Message::InvalidPayload(m)) && m@
                == "Missing required fields"@),
            old(self).wf() ==> (r matches Ok(v) ==> old(self).id_unused(v.id)),
            r matches Ok(v) ==> {
                &&& v@ == new_vendor(old(self).next_id(), payload, now)
                &&& final(self).last_id() == v.id
                &&& final(self).vendor_rows() == old(self).vendor_rows().insert(
                    v.id,
                    vendor_bytes(v@),
                )
                &&& final(self).service_rows() == old(self).service_rows()
                &&& final(self).contract_rows() == old(self).contract_rows()
                &&& final(self).feedback_rows() == old(self).feedback_rows()
            },
    {
        if payload.name.as_str().is_empty() || payload.contact.as_str().is_empty()
            || payload.email.as_str().is_empty() {
            return Err(Message::InvalidPayload("Missing required fields".to_owned()));
        }
        let id = self.ids.get() + 1;
        let vendor = Vendor {
            id,
            name: payload.name,
            services: payload.services,
            contact: payload.contact,
            email: payload.email,
            address: payload.address,
            ratings: Vec::new(),
            created_at: now,
        };
        assert(vendor@ == new_vendor(old(self).next_id(), payload, now));
        let bytes = encode_vendor(&vendor);
        if bytes.len() > MAX_RECORD_SIZE {
            return Err(Message::InvalidPayload("Vendor record is too large".to_owned()));
        }
        self.ids.set(id);
        self.vendors.insert(id, &bytes);
        proof {
            if old(self).wf() && old(self).ratings_consistent() {
                lemma_new_vendor_keeps_counts(*old(self), *self, vendor@);
            }
        }
        Ok(vendor)
    }

    /// The vendor stored under `id`.
    pub fn get_vendor_by_id(&self, id: u64) -> (r: Result<Vendor, Message>)
        ensures
            r matches Err(Message::NotFound(_)) <==> !self.vendor_rows().contains_key(id),
            r matches Err(Message::Error(_)) <==> self.vendor_rows().contains_key(id)
                && self.stored_vendor(id) is None,
            r is Ok <==> self.stored_vendor(id) is Some,
            r matches Ok(v) ==> self.stored_vendor(id) == Some(v@),
            r is Ok || r matches Err(Message::NotFound(_)) || r matches Err(Message::Error(_)),
            r matches Err(Message::NotFound(m)) ==> m@ == "Vendor not found"@,
    {
        match self.vendors.get(id) {
            None => Err(Message::NotFound("Vendor not found".to_owned())),
            Some(bytes) => match decode_vendor(bytes.as_slice()) {
                Some(v) => Ok(v),
                None => Err(Message::Error("Stored vendor is unreadable".to_owned())),
            },
        }
    }

    /// Every vendor, in ascending identifier order.
    pub fn list_all_vendors(&self) -> (r: Result<Vec<Vendor>, Message>)
        ensures
            self.all_vendors() is None <==> r matches Err(Message::Error(_)),
            self.all_vendors() == Some(Seq::<VendorModel>::empty()) <==> r matches Err(
                Message::NotFound(_),
            ),
            r matches Ok(vs) ==> self.all_vendors() == Some(vs@.map_values(|v: Vendor| v@))
                && vs@.len() > 0,
            r is Ok || r matches Err(Message::NotFound(_)) || r matches Err(Message::Error(_)),
            r matches Err(Message::NotFound(m)) ==> m@ == "No vendors found"@,
    {
        let entries = ordered_entries(&self.vendors);
        let ghost rows = stored_values(self.vendor_rows());
        let ghost dec = |b: Seq<u8>| vendor_from(b);
        let ghost keep = |v: VendorModel| true;
        let mut out: Vec<Vendor> = Vec::new();
        let mut i: usize = 0;
        assert(rows.take(0) =~= Seq::<Seq<u8>>::empty());
        assert(out@.map_values(|v: Vendor| v@) =~= Seq::<VendorModel>::empty());
        while i < entries.len()
            invariant
                i <= entries@.len(),
                entries@.len() == rows.len(),
                rows == stored_values(self.vendor_rows()),
                dec == (|b: Seq<u8>| vendor_from(b)),
                keep == (|v: VendorModel| true),
                forall|j: int| 0 <= j < entries@.len() ==> (#[trigger] entries@[j]).1@ == rows[j],
                select_all(rows.take(i as int), dec, keep) == Some(
                    out@.map_values(|v: Vendor| v@),
                ),
            decreases entries@.len() - i,
        {
            assert(rows.take(i + 1).drop_last() =~= rows.take(i as int));
            assert(entries@[i as int].1@ == rows[i as int]);
            match decode_vendor(entries[i].1.as_slice()) {
                Some(v) => {
                    let ghost before = out@;
                    out.push(v);
                    assert(out@.map_values(|v: Vendor| v@) =~= before.map_values(|v: Vendor| v@).push(
                        v@,
                    ));
                },
                None => {
                    proof {
                        lemma_select_all_none(rows, i + 1, dec, keep);
                    }
                    return Err(Message::Error("Stored vendor is unreadable".to_owned()));
                },
            }
            i = i + 1;
        }
        assert(rows.take(i as int) =~= rows);
        if out.len() == 0 {
            assert(out@.map_values(|v: Vendor| v@) =~= Seq::<VendorModel>::empty());
            Err(Message::NotFound("No vendors found".to_owned()))
        } else {
            Ok(out)
        }
    }

    /// Records a new service of an existing vendor, under the next identifier.
    #[verifier::rlimit(60)]
    pub fn create_service(&mut self, payload: CreateServicePayload) -> (r: Result<
        Service,
        Message,
    >)
        requires
            old(self).last_id() < u64::MAX,
        ensures
            r matches Err(Message::InvalidPayload(_)) <==> !service_payload_ok(payload) || (
            old(self).vendor_rows().contains_key(payload.vendor_id) && !fits(
                service_bytes(new_service(old(self).next_id(), payload)),
            )),
            r matches Err(Message::NotFound(_)) <==> service_payload_ok(payload) && !old(
                self,
            ).vendor_rows().contains_key(payload.vendor_id),
            service_payload_ok(payload) && old(self).vendor_rows().contains_key(payload.vendor_id)
                && fits(service_bytes(new_service(old(self).next_id(), payload))) ==> r is Ok,
            r is Err ==> final(self).same_as(old(self)),
            old(self).wf() ==> final(self).wf(),
            old(self).wf() && old(self).ratings_consistent() ==> final(self).ratings_consistent(),
            r matches Err(Message::NotFound(m)) ==> m@ == "Vendor not found"@,
            !service_payload_ok(payload) ==> (r matches Err(Message::InvalidPayload(m)) && m@
                == "Missing required fields"@),
            old(self).wf() ==> (r matches Ok(x) ==> old(self).id_unused(x.id)),
            r matches Ok(x) ==> {
                &&& x@ == new_service(old(self).next_id(), payload)
                &&& final(self).last_id() == x.id
                &&& final(self).service_rows() == old(self).service_rows().insert(
                    x.id,
                    service_bytes(x@),
                )
                &&& final(self).vendor_rows() == old(self).vendor_rows()
                &&& final(self).contract_rows() == old(self).contract_rows()
                &&& final(self).feedback_rows() == old(self).feedback_rows()
            },
    {
        if payload.name.as_str().is_empty() || payload.description.as_str().is_empty()
            || payload.price == 0 {
            return Err(Message::InvalidPayload("Missing required fields".to_owned()));
        }
        if !self.vendors.contains_key(payload.vendor_id) {
            return Err(Message::NotFound("Vendor not found".to_owned()));
        }
        let id = self.ids.get() + 1;
        let service = Service {
            id,
            vendor_id: payload.vendor_id,
            name: payload.name,
            description: payload.description,
            price: payload.price,
            is_available: true,
        };
        let bytes = encode_service(&service);
        if bytes.len() > MAX_RECORD_SIZE {
            return Err(Message::InvalidPayload("Service record is too large".to_owned()));
        }
        self.ids.set(id);
        self.services.insert(id, &bytes);
        proof {
            if old(self).ratings_consistent() {
                lemma_counts_follow_rows(*old(self), *self);
            }
        }
        Ok(service)
    }

    /// Records a new contract of an existing vendor, under the next identifier.
    #[verifier::rlimit(60)]
    pub fn create_contract(&mut self, payload: CreateContractPayload) -> (r: Result<
        Contract,
        Message,
    >)
        requires
            old(self).last_id() < u64::MAX,
        ensures
            r matches Err(Message::InvalidPayload(_)) <==> !contract_payload_ok(payload) || (
            old(self).vendor_rows().contains_key(payload.vendor_id) && !fits(
                contract_bytes(new_contract(old(self).next_id(), payload)),
            )),
            r matches Err(Message::NotFound(_)) <==> contract_payload_ok(payload) && !old(
                self,
            ).vendor_rows().contains_key(payload.vendor_id),
            contract_payload_ok(payload) && old(self).vendor_rows().contains_key(payload.vendor_id)
                && fits(contract_bytes(new_contract(old(self).next_id(), payload))) ==> r is Ok,
            r is Err ==> final(self).same_as(old(self)),
            old(self).wf() ==> final(self).wf(),
            old(self).wf() && old(self).ratings_consistent() ==> final(self).ratings_consistent(),
            r matches Err(Message::NotFound(m)) ==> m@ == "Vendor not found"@,
            !contract_payload_ok(payload) ==> (r matches Err(Message::InvalidPayload(m)) && m@
                == "Missing required fields"@),
            old(self).wf() ==> (r matches Ok(x) ==> old(self).id_unused(x.id)),
            r matches Ok(x) ==> {
                &&& x@ == new_contract(old(self).next_id(), payload)
                &&& final(self).last_id() == x.id
                &&& final(self).contract_rows() == old(self).contract_rows().insert(
                    x.id,
                    contract_bytes(x@),
                )
                &&& final(self).vendor_rows() == old(self).vendor_rows()
                &&& final(self).service_rows() == old(self).service_rows()
                &&& final(self).feedback_rows() == old(self).feedback_rows()
            },
    {
        if payload.vendor_id == 0 || payload.department_id == 0 || payload.start_date == 0
            || payload.end_date == 0 {
            return Err(Message::InvalidPayload("Missing required fields".to_owned()));
        }
        if !self.vendors.contains_key(payload.vendor_id) {
            return Err(Message::NotFound("Vendor not found".to_owned()));
        }
        let id = self.ids.get() + 1;
        let contract = Contract {
            id,
            vendor_id: payload.vendor_id,
            department_id: payload.department_id,
            start_date: payload.start_date,
            end_date: payload.end_date,
            terms: payload.terms,
            is_active: true,
        };
        let bytes = encode_contract(&contract);
        if bytes.len() > MAX_RECORD_SIZE {
            return Err(Message::InvalidPayload("Contract record is too large".to_owned()));
        }
        self.ids.set(id);
        self.contracts.insert(id, &bytes);
        proof {
            if old(self).ratings_consistent() {
                lemma_counts_follow_rows(*old(self), *self);
            }
        }
        Ok(contract)
    }

    /// The feedback would not fit in a record, or the vendor with the new rating would not.
    pub open spec fn feedback_too_large(&self, p: CreateFeedbackPayload, now: u64) -> bool {
        match self.stored_vendor(p.vendor_id) {
            Some(v) => !fits(feedback_bytes(new_feedback(self.next_id(), p, now))) || !fits(
                vendor_bytes(with_rating(v, p.rating as u64)),
            ),
            None => false,
        }
    }

    /// Records a rating of an existing vendor under the next identifier, and adds the rating to
    /// the vendor's list. Nothing is written unless both records can be written.
    #[verifier::rlimit(60)]
    pub fn create_feedback(&mut self, payload: CreateFeedbackPayload, now: u64) -> (r: Result<
        Feedback,
        Message,
    >)
        requires
            old(self).last_id() < u64::MAX,
        ensures
            r matches Err(Message::InvalidPayload(_)) <==> !feedback_payload_ok(payload) || old(
                self,
            ).feedback_too_large(payload, now),
            r matches Err(Message::NotFound(_)) <==> feedback_payload_ok(payload) && !old(
                self,
            ).vendor_rows().contains_key(payload.vendor_id),
            feedback_payload_ok(payload) && old(self).vendor_rows().contains_key(payload.vendor_id)
                && old(self).stored_vendor(payload.vendor_id) is None ==> r matches Err(
                Message::Error(_),
            ),
            feedback_payload_ok(payload) && old(self).stored_vendor(payload.vendor_id) is Some
                && !old(self).feedback_too_large(payload, now) ==> r is Ok,
            r is Err ==> final(self).same_as(old(self)),
            old(self).wf() ==> final(self).wf(),
            old(self).wf() && old(self).ratings_consistent() ==> final(self).ratings_consistent(),
            r matches Err(Message::NotFound(m)) ==> m@ == "Vendor not found"@,
            !feedback_payload_ok(payload) ==> (r matches Err(Message::InvalidPayload(m)) && m@
                == "Invalid feedback data"@),
            old(self).wf() ==> (r matches Ok(x) ==> old(self).id_unused(x.id)),
            r matches Ok(x) ==> {
                let ov = old(self).stored_vendor(payload.vendor_id)->Some_0;
                &&& old(self).stored_vendor(payload.vendor_id) is Some
                &&& x@ == new_feedback(old(self).next_id(), payload, now)
                &&& final(self).last_id() == x.id
                &&& final(self).feedback_rows() == old(self).feedback_rows().insert(
                    x.id,
                    feedback_bytes(x@),
                )
                &&& final(self).vendor_rows() == old(self).vendor_rows().insert(
                    x.vendor_id,
                    vendor_bytes(with_rating(ov, x.rating)),
                )
                &&& final(self).stored_vendor(x.vendor_id) == Some(with_rating(ov, x.rating))
                &&& final(self).service_rows() == old(self).service_rows()
                &&& final(self).contract_rows() == old(self).contract_rows()
            },
    {
        if payload.vendor_id == 0 || payload.user_id == 0 || payload.rating < 0 || payload.rating
            > MAX_RATING {
            return Err(Message::InvalidPayload("Invalid feedback data".to_owned()));
        }
        let stored = match self.vendors.get(payload.vendor_id) {
            Some(b) => b,
            None => return Err(Message::NotFound("Vendor not found".to_owned())),
        };
        let mut vendor = match decode_vendor(stored.as_slice()) {
            Some(v) => v,
            None => return Err(Message::Error("Stored vendor is unreadable".to_owned())),
        };
        let ghost ov = vendor@;
        let rating = payload.rating as u64;
        let id = self.ids.get() + 1;
        let feedback = Feedback {
            id,
            vendor_id: payload.vendor_id,
            user_id: payload.user_id,
            rating,
            comment: payload.comment,
            timestamp: now,
        };
        vendor.ratings.push(rating);
        assert(vendor@ == with_rating(ov, rating));
        let feedback_record = encode_feedback(&feedback);
        let vendor_record = encode_vendor(&vendor);
        if feedback_record.len() > MAX_RECORD_SIZE || vendor_record.len() > MAX_RECORD_SIZE {
            return Err(Message::InvalidPayload("Feedback record is too large".to_owned()));
        }
        self.ids.set(id);
        self.feedback.insert(id, &feedback_record);
        self.vendors.insert(payload.vendor_id, &vendor_record);
        proof {
            lemma_small_vendor_fits(vendor@);
            lemma_vendor_round_trip(vendor@);
            if old(self).wf() && old(self).ratings_consistent() {
                lemma_new_feedback_keeps_counts(*old(self), *self, feedback@, ov);
            }
        }
        Ok(feedback)
    }

    /// The total and the number of the ratings of vendor `vendor_id`, in thousandths of a
    /// point: the average rating is the total divided by the number, taken exactly.
    pub fn calculate_average_rating(&self, vendor_id: u64) -> (r: Result<(u128, u64), Message>)
        ensures
            r matches Err(Message::NotFound(_)) <==> !self.vendor_rows().contains_key(vendor_id)
                || (self.stored_vendor(vendor_id) matches Some(v) && v.ratings.len() == 0),
            r matches Err(Message::Error(_)) <==> self.vendor_rows().contains_key(vendor_id)
                && self.stored_vendor(vendor_id) is None,
            r is Ok <==> self.average_rating(vendor_id) is Some,
            r matches Ok((total, count)) ==> self.average_rating(vendor_id) == Some(
                (total as int, count as int),
            ),
            r is Ok || r matches Err(Message::NotFound(_)) || r matches Err(Message::Error(_)),
            r matches Err(Message::NotFound(m)) ==> if self.vendor_rows().contains_key(vendor_id) {
                m@ == "No ratings available for this vendor"@
            } else {
                m@ == "Vendor not found"@
            },
    {
        let vendor = match self.get_vendor_by_id(vendor_id) {
            Ok(v) => v,
            Err(e) => return Err(e),
        };
        let n = vendor.ratings.len();
        if n == 0 {
            return Err(Message::NotFound("No ratings available for this vendor".to_owned()));
        }
        let ghost rs = vendor.ratings@;
        let mut sum: u128 = 0;
        let mut i: usize = 0;
        while i < n
            invariant
                i <= n,
                n == rs.len(),
                rs == vendor.ratings@,
                sum == rating_sum(rs.take(i as int)),
                sum <= i * 0xffff_ffff_ffff_ffffu64,
            decreases n - i,
        {
            assert(rs.take(i + 1).drop_last() =~= rs.take(i as int));
            sum = sum + vendor.ratings[i] as u128;
            i = i + 1;
        }
        assert(rs.take(n as int) =~= rs);
        Ok((sum, n as u64))
    }

    /// The services of vendor `vendor_id`, in ascending identifier order.
    pub fn get_services_by_vendor_id(&self, vendor_id: u64) -> (r: Result<Vec<Service>, Message>)
        ensures
            self.services_of(vendor_id) is None <==> r matches Err(Message::Error(_)),
            self.services_of(vendor_id) == Some(Seq::<ServiceModel>::empty()) <==> r matches Err(
                Message::NotFound(_),
            ),
            r matches Ok(xs) ==> self.services_of(vendor_id) == Some(
                xs@.map_values(|x: Service| x@),
            ) && xs@.len() > 0,
            r is Ok || r matches Err(Message::NotFound(_)) || r matches Err(Message::Error(_)),
            r matches Err(Message::NotFound(m)) ==> m@ == "No services found for this vendor"@,
    {
        let entries = ordered_entries(&self.services);
        let ghost rows = stored_values(self.service_rows());
        let ghost dec = |b: Seq<u8>| service_from(b);
        let ghost keep = |x: ServiceModel| x.vendor_id == vendor_id;
        let mut out: Vec<Service> = Vec::new();
        let mut i: usize = 0;
        assert(rows.take(0) =~= Seq::<Seq<u8>>::empty());
        assert(out@.map_values(|x: Service| x@) =~= Seq::<ServiceModel>::empty());
        while i < entries.len()
            invariant
                i <= entries@.len(),
                entries@.len() == rows.len(),
                rows == stored_values(self.service_rows()),
                dec == (|b: Seq<u8>| service_from(b)),
                keep == (|x: ServiceModel| x.vendor_id == vendor_id),
                forall|j: int| 0 <= j < entries@.len() ==> (#[trigger] entries@[j]).1@ == rows[j],
                select_all(rows.take(i as int), dec, keep) == Some(
                    out@.map_values(|x: Service| x@),
                ),
            decreases entries@.len() - i,
        {
            assert(rows.take(i + 1).drop_last() =~= rows.take(i as int));
            assert(entries@[i as int].1@ == rows[i as int]);
            match decode_service(entries[i].1.as_slice()) {
                Some(x) => {
                    if x.vendor_id == vendor_id {
                        let ghost before = out@;
                        out.push(x);
                        assert(out@.map_values(|x: Service| x@) =~= before.map_values(
                            |x: Service| x@,
                        ).push(x@));
                    }
                },
                None => {
                    proof {
                        lemma_select_all_none(rows, i + 1, dec, keep);
                    }
                    return Err(Message::Error("Stored service is unreadable".to_owned()));
                },
            }
            i = i + 1;
        }
        assert(rows.take(i as int) =~= rows);
        if out.len() == 0 {
            assert(out@.map_values(|x: Service| x@) =~= Seq::<ServiceModel>::empty());
            Err(Message::NotFound("No services found for this vendor".to_owned()))
        } else {
            Ok(out)
        }
    }

    /// The contracts of vendor `vendor_id`, in ascending identifier order.
    pub fn get_contracts_by_vendor_id(&self, vendor_id: u64) -> (r: Result<Vec<Contract>, Message>)
        ensures
            self.contracts_of(vendor_id) is None <==> r matches Err(Message::Error(_)),
            self.contracts_of(vendor_id) == Some(Seq::<ContractModel>::empty()) <==> r matches Err(
                Message::NotFound(_),
            ),
            r matches Ok(xs) ==> self.contracts_of(vendor_id) == Some(
                xs@.map_values(|x: Contract| x@),
            ) && xs@.len() > 0,
            r is Ok || r matches Err(Message::NotFound(_)) || r matches Err(Message::Error(_)),
            r matches Err(Message::NotFound(m)) ==> m@ == "No contracts found for this vendor"@,
    {
        let entries = ordered_entries(&self.contracts);
        let ghost rows = stored_values(self.contract_rows());
        let ghost dec = |b: Seq<u8>| contract_from(b);
        let ghost keep = |x: ContractModel| x.vendor_id == vendor_id;
        let mut out: Vec<Contract> = Vec::new();
        let mut i: usize = 0;
        assert(rows.take(0) =~= Seq::<Seq<u8>>::empty());
        assert(out@.map_values(|x: Contract| x@) =~= Seq::<ContractModel>::empty());
        while i < entries.len()
            invariant
                i <= entries@.len(),
                entries@.len() == rows.len(),
                rows == stored_values(self.contract_rows()),
                dec == (|b: Seq<u8>| contract_from(b)),
                keep == (|x: ContractModel| x.vendor_id == vendor_id),
                forall|j: int| 0 <= j < entries@.len() ==> (#[trigger] entries@[j]).1@ == rows[j],
                select_all(rows.take(i as int), dec, keep) == Some(
                    out@.map_values(|x: Contract| x@),
                ),
            decreases entries@.len() - i,
        {
            assert(rows.take(i + 1).drop_last() =~= rows.take(i as int));
            assert(entries@[i as int].1@ == rows[i as int]);
            match decode_contract(entries[i].1.as_slice()) {
                Some(x) => {
                    if x.vendor_id == vendor_id {
                        let ghost before = out@;
                        out.push(x);
                        assert(out@.map_values(|x: Contract| x@) =~= before.map_values(
                            |x: Contract| x@,
                        ).push(x@));
                    }
                },
                None => {
                    proof {
                        lemma_select_all_none(rows, i + 1, dec, keep);
                    }
                    return Err(Message::Error("Stored contract is unreadable".to_owned()));
                },
            }
            i = i + 1;
        }
        assert(rows.take(i as int) =~= rows);
        if out.len() == 0 {
            assert(out@.map_values(|x: Contract| x@) =~= Seq::<ContractModel>::empty());
            Err(Message::NotFound("No contracts found for this vendor".to_owned()))
        } else {
            Ok(out)
        }
    }

    /// The feedback entries of vendor `vendor_id`, in ascending identifier order.
    pub fn get_feedback_by_vendor_id(&self, vendor_id: u64) -> (r: Result<Vec<Feedback>, Message>)
        ensures
            self.feedback_of(vendor_id) is None <==> r matches Err(Message::Error(_)),
            self.feedback_of(vendor_id) == Some(Seq::<FeedbackModel>::empty()) <==> r matches Err(
                Message::NotFound(_),
            ),
            r matches Ok(xs) ==> self.feedback_of(vendor_id) == Some(
                xs@.map_values(|x: Feedback| x@),
            ) && xs@.len() > 0,
            r is Ok || r matches Err(Message::NotFound(_)) || r matches Err(Message::Error(_)),
            r matches Err(Message::NotFound(m)) ==> m@ == "No feedback found for this vendor"@,
    {
        let entries = ordered_entries(&self.feedback);
        let ghost rows = stored_values(self.feedback_rows());
        let ghost dec = |b: Seq<u8>| feedback_from(b);
        let ghost keep = |x: FeedbackModel| x.vendor_id == vendor_id;
        let mut out: Vec<Feedback> = Vec::new();
        let mut i: usize = 0;
        assert(rows.take(0) =~= Seq::<Seq<u8>>::empty());
        assert(out@.map_values(|x: Feedback| x@) =~= Seq::<FeedbackModel>::empty());
        while i < entries.len()
            invariant
                i <= entries@.len(),
                entries@.len() == rows.len(),
                rows == stored_values(self.feedback_rows()),
                dec == (|b: Seq<u8>| feedback_from(b)),
                keep == (|x: FeedbackModel| x.vendor_id == vendor_id),
                forall|j: int| 0 <= j < entries@.len() ==> (#[trigger] entries@[j]).1@ == rows[j],
                select_all(rows.take(i as int), dec, keep) == Some(
                    out@.map_values(|x: Feedback| x@),
                ),
            decreases entries@.len() - i,
        {
            assert(rows.take(i + 1).drop_last() =~= rows.take(i as int));
            assert(entries@[i as int].1@ == rows[i as int]);
            match decode_feedback(entries[i].1.as_slice()) {
                Some(x) => {
                    if x.vendor_id == vendor_id {
                        let ghost before = out@;
                        out.push(x);
                        assert(out@.map_values(|x: Feedback| x@) =~= before.map_values(
                            |x: Feedback| x@,
                        ).push(x@));
                    }
                },
                None => {
                    proof {
                        lemma_select_all_none(rows, i + 1, dec, keep);
                    }
                    return Err(Message::Error("Stored feedback is unreadable".to_owned()));
                },
            }
            i = i + 1;
        }
        assert(rows.take(i as int) =~= rows);
        if out.len() == 0 {
            assert(out@.map_values(|x: Feedback| x@) =~= Seq::<FeedbackModel>::empty());
            Err(Message::NotFound("No feedback found for this vendor".to_owned()))
        } else {
            Ok(out)
        }
    }
}

} // verus!
