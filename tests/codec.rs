use vendor_store::entity::{Contract, Feedback, Service, Vendor};
use vendor_store::record::{
    decode_contract, decode_feedback, decode_service, decode_vendor, encode_contract,
    encode_feedback, encode_service, encode_vendor,
};

#[test]
fn vendor_round_trip() {
    let v = Vendor {
        id: 7,
        name: "Café Ünïcode ☕".to_string(),
        services: vec!["Espresso".to_string(), "".to_string()],
        contact: "555".to_string(),
        email: "c@x.org".to_string(),
        address: "Rue 1".to_string(),
        ratings: vec![0, 5000, 1234],
        created_at: u64::MAX,
    };
    let bytes = encode_vendor(&v);
    assert_eq!(decode_vendor(&bytes), Some(v));
}

#[test]
fn vendor_layout_is_little_endian_and_length_prefixed() {
    let v = Vendor {
        id: 0x0102,
        name: "é".to_string(),
        services: vec![],
        contact: String::new(),
        email: String::new(),
        address: String::new(),
        ratings: vec![],
        created_at: 0,
    };
    let bytes = encode_vendor(&v);
    assert_eq!(&bytes[0..8], &[2, 1, 0, 0, 0, 0, 0, 0]);
    assert_eq!(&bytes[8..16], &[2, 0, 0, 0, 0, 0, 0, 0]);
    assert_eq!(&bytes[16..18], "é".as_bytes());
    assert_eq!(bytes.len(), 8 + 10 + 8 + 8 + 8 + 8 + 8 + 8);
}

#[test]
fn service_round_trip() {
    let s = Service {
        id: 2,
        vendor_id: 1,
        name: "Cleaning".to_string(),
        description: "Office cleaning".to_string(),
        price: 100,
        is_available: true,
    };
    assert_eq!(decode_service(&encode_service(&s)), Some(s));
}

#[test]
fn contract_round_trip() {
    let c = Contract {
        id: 3,
        vendor_id: 1,
        department_id: 4,
        start_date: 10,
        end_date: 20,
        terms: "Net 30".to_string(),
        is_active: false,
    };
    assert_eq!(decode_contract(&encode_contract(&c)), Some(c));
}

#[test]
fn feedback_round_trip() {
    let f = Feedback {
        id: 9,
        vendor_id: 1,
        user_id: 5,
        rating: 4500,
        comment: "Great".to_string(),
        timestamp: 77,
    };
    assert_eq!(decode_feedback(&encode_feedback(&f)), Some(f));
}

#[test]
fn truncated_or_padded_records_are_refused() {
    let f = Feedback {
        id: 9,
        vendor_id: 1,
        user_id: 5,
        rating: 4500,
        comment: "Great".to_string(),
        timestamp: 77,
    };
    let bytes = encode_feedback(&f);
    assert_eq!(decode_feedback(&bytes[..bytes.len() - 1]), None);
    let mut longer = bytes.clone();
    longer.push(0);
    assert_eq!(decode_feedback(&longer), None);
}

#[test]
fn invalid_utf8_is_refused() {
    let s = Service {
        id: 2,
        vendor_id: 1,
        name: "ab".to_string(),
        description: "".to_string(),
        price: 1,
        is_available: true,
    };
    let mut bytes = encode_service(&s);
    bytes[24] = 0xff;
    assert_eq!(decode_service(&bytes), None);
}

#[test]
fn bad_flag_byte_is_refused() {
    let c = Contract {
        id: 3,
        vendor_id: 1,
        department_id: 4,
        start_date: 10,
        end_date: 20,
        terms: String::new(),
        is_active: true,
    };
    let mut bytes = encode_contract(&c);
    let last = bytes.len() - 1;
    bytes[last] = 2;
    assert_eq!(decode_contract(&bytes), None);
}
