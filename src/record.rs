use vstd::prelude::*;
use vstd::utf8::encode_utf8;

use crate::codec::{
    lemma_strs_body_len, lemma_u64s_body_len, MAX_RECORD_SIZE,
    lemma_take_bool, lemma_take_str, lemma_take_strs, lemma_take_u64, lemma_take_u64s, put_bool,
    put_str, put_strs, put_u64, put_u64s, read_bool, read_str, read_strs, read_u64, read_u64s,
    bool_bytes, str_bytes, strs_bytes, strs_fit, take_bool, take_str, take_strs, take_u64,
    take_u64s, u64_le, u64s_bytes,
};
use crate::entity::{
    strings_view, Contract, ContractModel, Feedback, FeedbackModel, Service, ServiceModel, Vendor,
    VendorModel,
};

verus! {

// ----- Vendor -----

/// Stored layout of a vendor.
pub open spec fn vendor_bytes(v: VendorModel) -> Seq<u8> {
    u64_le(v.id) + str_bytes(v.name) + strs_bytes(v.services) + str_bytes(v.contact) + str_bytes(
        v.email,
    ) + str_bytes(v.address) + u64s_bytes(v.ratings) + u64_le(v.created_at)
}

/// The vendor that `b` holds, if it holds exactly one.
pub open spec fn vendor_from(b: Seq<u8>) -> Option<VendorModel> {
    match take_u64(b) {
        None => None,
        Some((id, b1)) => match take_str(b1) {
            None => None,
            Some((name, b2)) => match take_strs(b2) {
                None => None,
                Some((services, b3)) => match take_str(b3) {
                    None => None,
                    Some((contact, b4)) => match take_str(b4) {
                        None => None,
                        Some((email, b5)) => match take_str(b5) {
                            None => None,
                            Some((address, b6)) => match take_u64s(b6) {
                                None => None,
                                Some((ratings, b7)) => match take_u64(b7) {
                                    None => None,
                                    Some((created_at, b8)) => if b8.len() == 0 {
                                        Some(
                                            VendorModel {
                                                id,
                                                name,
                                                services,
                                                contact,
                                                email,
                                                address,
                                                ratings,
                                                created_at,
                                            },
                                        )
                                    } else {
                                        None
                                    },
                                },
                            },
                        },
                    },
                },
            },
        },
    }
}

/// Every string and list of the vendor has a length that a 64-bit integer holds.
pub open spec fn vendor_fits(v: VendorModel) -> bool {
    &&& encode_utf8(v.name).len() <= u64::MAX
    &&& strs_fit(v.services)
    &&& v.services.len() <= u64::MAX
    &&& encode_utf8(v.contact).len() <= u64::MAX
    &&& encode_utf8(v.email).len() <= u64::MAX
    &&& encode_utf8(v.address).len() <= u64::MAX
    &&& v.ratings.len() <= u64::MAX
}

/// Decoding an encoded vendor gives back that vendor.
#[verifier::rlimit(80)]
pub proof fn lemma_vendor_round_trip(v: VendorModel)
    requires
        vendor_fits(v),
    ensures
        vendor_from(vendor_bytes(v)) == Some(v),
{
    let r8 = Seq::<u8>::empty();
    let r7 = u64_le(v.created_at);
    let r6 = u64s_bytes(v.ratings) + r7;
    let r5 = str_bytes(v.address) + r6;
    let r4 = str_bytes(v.email) + r5;
    let r3 = str_bytes(v.contact) + r4;
    let r2 = strs_bytes(v.services) + r3;
    let r1 = str_bytes(v.name) + r2;
    assert(vendor_bytes(v) =~= u64_le(v.id) + r1);
    assert(r7 =~= u64_le(v.created_at) + r8);
    lemma_take_u64(v.id, r1);
    lemma_take_str(v.name, r2);
    lemma_take_strs(v.services, r3);
    lemma_take_str(v.contact, r4);
    lemma_take_str(v.email, r5);
    lemma_take_str(v.address, r6);
    lemma_take_u64s(v.ratings, r7);
    lemma_take_u64(v.created_at, r8);
}

/// A vendor whose encoding is within the record bound has lengths that fit.
pub proof fn lemma_small_vendor_fits(v: VendorModel)
    requires
        vendor_bytes(v).len() <= MAX_RECORD_SIZE,
    ensures
        vendor_fits(v),
{
    lemma_strs_body_len(v.services);
    lemma_u64s_body_len(v.ratings);
}

pub fn encode_vendor(v: &Vendor) -> (r: Vec<u8>)
    ensures
        r@ == vendor_bytes(v@),
{
    let mut buf: Vec<u8> = Vec::new();
    put_u64(&mut buf, v.id);
    put_str(&mut buf, &v.name);
    put_strs(&mut buf, &v.services);
    put_str(&mut buf, &v.contact);
    put_str(&mut buf, &v.email);
    put_str(&mut buf, &v.address);
    put_u64s(&mut buf, &v.ratings);
    put_u64(&mut buf, v.created_at);
    assert(buf@ =~= vendor_bytes(v@));
    buf
}

#[verifier::rlimit(80)]
pub fn decode_vendor(b: &[u8]) -> (r: Option<Vendor>)
    ensures
        r is Some <==> vendor_from(b@) is Some,
        r matches Some(v) ==> vendor_from(b@) == Some(v@),
{
    assert(b@.skip(0) =~= b@);
    let (id, p) = match read_u64(b, 0) {
        Some(x) => x,
        None => return None,
    };
    let (name, p) = match read_str(b, p) {
        Some(x) => x,
        None => return None,
    };
    let (services, p) = match read_strs(b, p) {
        Some(x) => x,
        None => return None,
    };
    let (contact, p) = match read_str(b, p) {
        Some(x) => x,
        None => return None,
    };
    let (email, p) = match read_str(b, p) {
        Some(x) => x,
        None => return None,
    };
    let (address, p) = match read_str(b, p) {
        Some(x) => x,
        None => return None,
    };
    let (ratings, p) = match read_u64s(b, p) {
        Some(x) => x,
        None => return None,
    };
    let (created_at, p) = match read_u64(b, p) {
        Some(x) => x,
        None => return None,
    };
    if p != b.len() {
        return None;
    }
    Some(Vendor { id, name, services, contact, email, address, ratings, created_at })
}

// ----- Service -----

/// Stored layout of a service.
pub open spec fn service_bytes(s: ServiceModel) -> Seq<u8> {
    u64_le(s.id) + u64_le(s.vendor_id) + str_bytes(s.name) + str_bytes(s.description) + u64_le(
        s.price,
    ) + bool_bytes(s.is_available)
}

/// The service that `b` holds, if it holds exactly one.
pub open spec fn service_from(b: Seq<u8>) -> Option<ServiceModel> {
    match take_u64(b) {
        None => None,
        Some((id, b1)) => match take_u64(b1) {
            None => None,
            Some((vendor_id, b2)) => match take_str(b2) {
                None => None,
                Some((name, b3)) => match take_str(b3) {
                    None => None,
                    Some((description, b4)) => match take_u64(b4) {
                        None => None,
                        Some((price, b5)) => match take_bool(b5) {
                            None => None,
                            Some((is_available, b6)) => if b6.len() == 0 {
                                Some(
                                    ServiceModel {
                                        id,
                                        vendor_id,
                                        name,
                                        description,
                                        price,
                                        is_available,
                                    },
                                )
                            } else {
                                None
                            },
                        },
                    },
                },
            },
        },
    }
}

pub open spec fn service_fits(s: ServiceModel) -> bool {
    &&& encode_utf8(s.name).len() <= u64::MAX
    &&& encode_utf8(s.description).len() <= u64::MAX
}

/// Decoding an encoded service gives back that service.
#[verifier::rlimit(80)]
pub proof fn lemma_service_round_trip(s: ServiceModel)
    requires
        service_fits(s),
    ensures
        service_from(service_bytes(s)) == Some(s),
{
    let r6 = Seq::<u8>::empty();
    let r5 = bool_bytes(s.is_available);
    let r4 = u64_le(s.price) + r5;
    let r3 = str_bytes(s.description) + r4;
    let r2 = str_bytes(s.name) + r3;
    let r1 = u64_le(s.vendor_id) + r2;
    assert(service_bytes(s) =~= u64_le(s.id) + r1);
    assert(r5 =~= bool_bytes(s.is_available) + r6);
    lemma_take_u64(s.id, r1);
    lemma_take_u64(s.vendor_id, r2);
    lemma_take_str(s.name, r3);
    lemma_take_str(s.description, r4);
    lemma_take_u64(s.price, r5);
    lemma_take_bool(s.is_available, r6);
}

pub fn encode_service(s: &Service) -> (r: Vec<u8>)
    ensures
        r@ == service_bytes(s@),
{
    let mut buf: Vec<u8> = Vec::new();
    put_u64(&mut buf, s.id);
    put_u64(&mut buf, s.vendor_id);
    put_str(&mut buf, &s.name);
    put_str(&mut buf, &s.description);
    put_u64(&mut buf, s.price);
    put_bool(&mut buf, s.is_available);
    assert(buf@ =~= service_bytes(s@));
    buf
}

#[verifier::rlimit(80)]
pub fn decode_service(b: &[u8]) -> (r: Option<Service>)
    ensures
        r is Some <==> service_from(b@) is Some,
        r matches Some(s) ==> service_from(b@) == Some(s@),
{
    assert(b@.skip(0) =~= b@);
    let (id, p) = match read_u64(b, 0) {
        Some(x) => x,
        None => return None,
    };
    let (vendor_id, p) = match read_u64(b, p) {
        Some(x) => x,
        None => return None,
    };
    let (name, p) = match read_str(b, p) {
        Some(x) => x,
        None => return None,
    };
    let (description, p) = match read_str(b, p) {
        Some(x) => x,
        None => return None,
    };
    let (price, p) = match read_u64(b, p) {
        Some(x) => x,
        None => return None,
    };
    let (is_available, p) = match read_bool(b, p) {
        Some(x) => x,
        None => return None,
    };
    if p != b.len() {
        return None;
    }
    Some(Service { id, vendor_id, name, description, price, is_available })
}

// ----- Contract -----

/// Stored layout of a contract.
pub open spec fn contract_bytes(c: ContractModel) -> Seq<u8> {
    u64_le(c.id) + u64_le(c.vendor_id) + u64_le(c.department_id) + u64_le(c.start_date) + u64_le(
        c.end_date,
    ) + str_bytes(c.terms) + bool_bytes(c.is_active)
}

/// The contract that `b` holds, if it holds exactly one.
pub open spec fn contract_from(b: Seq<u8>) -> Option<ContractModel> {
    match take_u64(b) {
        None => None,
        Some((id, b1)) => match take_u64(b1) {
            None => None,
            Some((vendor_id, b2)) => match take_u64(b2) {
                None => None,
                Some((department_id, b3)) => match take_u64(b3) {
                    None => None,
                    Some((start_date, b4)) => match take_u64(b4) {
                        None => None,
                        Some((end_date, b5)) => match take_str(b5) {
                            None => None,
                            Some((terms, b6)) => match take_bool(b6) {
                                None => None,
                                Some((is_active, b7)) => if b7.len() == 0 {
                                    Some(
                                        ContractModel {
                                            id,
                                            vendor_id,
                                            department_id,
                                            start_date,
                                            end_date,
                                            terms,
                                            is_active,
                                        },
                                    )
                                } else {
                                    None
                                },
                            },
                        },
                    },
                },
            },
        },
    }
}

pub open spec fn contract_fits(c: ContractModel) -> bool {
    encode_utf8(c.terms).len() <= u64::MAX
}

/// Decoding an encoded contract gives back that contract.
#[verifier::rlimit(80)]
pub proof fn lemma_contract_round_trip(c: ContractModel)
    requires
        contract_fits(c),
    ensures
        contract_from(contract_bytes(c)) == Some(c),
{
    let r7 = Seq::<u8>::empty();
    let r6 = bool_bytes(c.is_active);
    let r5 = str_bytes(c.terms) + r6;
    let r4 = u64_le(c.end_date) + r5;
    let r3 = u64_le(c.start_date) + r4;
    let r2 = u64_le(c.department_id) + r3;
    let r1 = u64_le(c.vendor_id) + r2;
    assert(contract_bytes(c) =~= u64_le(c.id) + r1);
    assert(r6 =~= bool_bytes(c.is_active) + r7);
    lemma_take_u64(c.id, r1);
    lemma_take_u64(c.vendor_id, r2);
    lemma_take_u64(c.department_id, r3);
    lemma_take_u64(c.start_date, r4);
    lemma_take_u64(c.end_date, r5);
    lemma_take_str(c.terms, r6);
    lemma_take_bool(c.is_active, r7);
}

pub fn encode_contract(c: &Contract) -> (r: Vec<u8>)
    ensures
        r@ == contract_bytes(c@),
{
    let mut buf: Vec<u8> = Vec::new();
    put_u64(&mut buf, c.id);
    put_u64(&mut buf, c.vendor_id);
    put_u64(&mut buf, c.department_id);
    put_u64(&mut buf, c.start_date);
    put_u64(&mut buf, c.end_date);
    put_str(&mut buf, &c.terms);
    put_bool(&mut buf, c.is_active);
    assert(buf@ =~= contract_bytes(c@));
    buf
}

#[verifier::rlimit(80)]
pub fn decode_contract(b: &[u8]) -> (r: Option<Contract>)
    ensures
        r is Some <==> contract_from(b@) is Some,
        r matches Some(c) ==> contract_from(b@) == Some(c@),
{
    assert(b@.skip(0) =~= b@);
    let (id, p) = match read_u64(b, 0) {
        Some(x) => x,
        None => return None,
    };
    let (vendor_id, p) = match read_u64(b, p) {
        Some(x) => x,
        None => return None,
    };
    let (department_id, p) = match read_u64(b, p) {
        Some(x) => x,
        None => return None,
    };
    let (start_date, p) = match read_u64(b, p) {
        Some(x) => x,
        None => return None,
    };
    let (end_date, p) = match read_u64(b, p) {
        Some(x) => x,
        None => return None,
    };
    let (terms, p) = match read_str(b, p) {
        Some(x) => x,
        None => return None,
    };
    let (is_active, p) = match read_bool(b, p) {
        Some(x) => x,
        None => return None,
    };
    if p != b.len() {
        return None;
    }
    Some(Contract { id, vendor_id, department_id, start_date, end_date, terms, is_active })
}

// ----- Feedback -----

/// Stored layout of a feedback entry.
pub open spec fn feedback_bytes(f: FeedbackModel) -> Seq<u8> {
    u64_le(f.id) + u64_le(f.vendor_id) + u64_le(f.user_id) + u64_le(f.rating) + str_bytes(
        f.comment,
    ) + u64_le(f.timestamp)
}

/// The feedback entry that `b` holds, if it holds exactly one.
pub open spec fn feedback_from(b: Seq<u8>) -> Option<FeedbackModel> {
    match take_u64(b) {
        None => None,
        Some((id, b1)) => match take_u64(b1) {
            None => None,
            Some((vendor_id, b2)) => match take_u64(b2) {
                None => None,
                Some((user_id, b3)) => match take_u64(b3) {
                    None => None,
                    Some((rating, b4)) => match take_str(b4) {
                        None => None,
                        Some((comment, b5)) => match take_u64(b5) {
                            None => None,
                            Some((timestamp, b6)) => if b6.len() == 0 {
                                Some(
                                    FeedbackModel {
                                        id,
                                        vendor_id,
                                        user_id,
                                        rating,
                                        comment,
                                        timestamp,
                                    },
                                )
                            } else {
                                None
                            },
                        },
                    },
                },
            },
        },
    }
}

pub open spec fn feedback_fits(f: FeedbackModel) -> bool {
    encode_utf8(f.comment).len() <= u64::MAX
}

/// Decoding an encoded feedback entry gives back that entry.
#[verifier::rlimit(80)]
pub proof fn lemma_feedback_round_trip(f: FeedbackModel)
    requires
        feedback_fits(f),
    ensures
        feedback_from(feedback_bytes(f)) == Some(f),
{
    let r6 = Seq::<u8>::empty();
    let r5 = u64_le(f.timestamp);
    let r4 = str_bytes(f.comment) + r5;
    let r3 = u64_le(f.rating) + r4;
    let r2 = u64_le(f.user_id) + r3;
    let r1 = u64_le(f.vendor_id) + r2;
    assert(feedback_bytes(f) =~= u64_le(f.id) + r1);
    assert(r5 =~= u64_le(f.timestamp) + r6);
    lemma_take_u64(f.id, r1);
    lemma_take_u64(f.vendor_id, r2);
    lemma_take_u64(f.user_id, r3);
    lemma_take_u64(f.rating, r4);
    lemma_take_str(f.comment, r5);
    lemma_take_u64(f.timestamp, r6);
}

pub fn encode_feedback(f: &Feedback) -> (r: Vec<u8>)
    ensures
        r@ == feedback_bytes(f@),
{
    let mut buf: Vec<u8> = Vec::new();
    put_u64(&mut buf, f.id);
    put_u64(&mut buf, f.vendor_id);
    put_u64(&mut buf, f.user_id);
    put_u64(&mut buf, f.rating);
    put_str(&mut buf, &f.comment);
    put_u64(&mut buf, f.timestamp);
    assert(buf@ =~= feedback_bytes(f@));
    buf
}

#[verifier::rlimit(80)]
pub fn decode_feedback(b: &[u8]) -> (r: Option<Feedback>)
    ensures
        r is Some <==> feedback_from(b@) is Some,
        r matches Some(f) ==> feedback_from(b@) == Some(f@),
{
    assert(b@.skip(0) =~= b@);
    let (id, p) = match read_u64(b, 0) {
        Some(x) => x,
        None => return None,
    };
    let (vendor_id, p) = match read_u64(b, p) {
        Some(x) => x,
        None => return None,
    };
    let (user_id, p) = match read_u64(b, p) {
        Some(x) => x,
        None => return None,
    };
    let (rating, p) = match read_u64(b, p) {
        Some(x) => x,
        None => return None,
    };
    let (comment, p) = match read_str(b, p) {
        Some(x) => x,
        None => return None,
    };
    let (timestamp, p) = match read_u64(b, p) {
        Some(x) => x,
        None => return None,
    };
    if p != b.len() {
        return None;
    }
    Some(Feedback { id, vendor_id, user_id, rating, comment, timestamp })
}

} // verus!
