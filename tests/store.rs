use vendor_store::entity::{
    CreateContractPayload, CreateFeedbackPayload, CreateServicePayload, CreateVendorPayload,
    Message,
};
use vendor_store::store::Store;

fn fresh() -> Store {
    Store::init().expect("a fresh store opens")
}

fn acme() -> CreateVendorPayload {
    CreateVendorPayload {
        name: "Acme".to_string(),
        services: vec![],
        contact: "555-0100".to_string(),
        email: "a@acme.com".to_string(),
        address: "".to_string(),
    }
}

fn cleaning(vendor_id: u64) -> CreateServicePayload {
    CreateServicePayload {
        vendor_id,
        name: "Cleaning".to_string(),
        description: "Office cleaning".to_string(),
        price: 100,
    }
}

fn contract(vendor_id: u64) -> CreateContractPayload {
    CreateContractPayload {
        vendor_id,
        department_id: 7,
        start_date: 1_000,
        end_date: 2_000,
        terms: "Net 30".to_string(),
    }
}

fn feedback(vendor_id: u64, user_id: u64, rating: i64) -> CreateFeedbackPayload {
    CreateFeedbackPayload { vendor_id, user_id, rating, comment: "Great".to_string() }
}

#[test]
fn scenario_vendor_service_feedback() {
    let mut s = fresh();
    let v = s.create_vendor(acme(), 42).unwrap();
    assert_eq!(v.id, 1);
    assert!(v.ratings.is_empty());
    assert_eq!(v.created_at, 42);
    assert_eq!(v.name, "Acme");

    let svc = s.create_service(cleaning(1)).unwrap();
    assert_eq!(svc.id, 2);
    assert!(svc.is_available);
    assert_eq!(svc.vendor_id, 1);
    assert_eq!(svc.price, 100);

    match s.create_service(cleaning(99)) {
        Err(Message::NotFound(m)) => assert_eq!(m, "Vendor not found"),
        other => panic!("unexpected {:?}", other),
    }

    let fb = s.create_feedback(feedback(1, 5, 4500), 50).unwrap();
    assert_eq!(fb.id, 3);
    assert_eq!(fb.rating, 4500);
    assert_eq!(fb.timestamp, 50);
    assert_eq!(s.get_vendor_by_id(1).unwrap().ratings, vec![4500]);
    assert_eq!(s.calculate_average_rating(1).unwrap(), (4500, 1));

    let bad = CreateFeedbackPayload {
        vendor_id: 1,
        user_id: 6,
        rating: 6000,
        comment: "x".to_string(),
    };
    assert!(matches!(s.create_feedback(bad, 60), Err(Message::InvalidPayload(_))));
    assert_eq!(s.get_vendor_by_id(1).unwrap().ratings, vec![4500]);
}

#[test]
fn average_of_vendor_without_feedback_is_not_found() {
    let mut s = fresh();
    s.create_vendor(acme(), 1).unwrap();
    match s.calculate_average_rating(1) {
        Err(Message::NotFound(m)) => assert_eq!(m, "No ratings available for this vendor"),
        other => panic!("unexpected {:?}", other),
    }
    assert!(matches!(s.calculate_average_rating(8), Err(Message::NotFound(_))));
}

#[test]
fn ids_increase_across_tables() {
    let mut s = fresh();
    let a = s.create_vendor(acme(), 1).unwrap().id;
    let b = s.create_service(cleaning(a)).unwrap().id;
    let c = s.create_contract(contract(a)).unwrap().id;
    let d = s.create_feedback(feedback(a, 2, 3000), 2).unwrap().id;
    let e = s.create_vendor(acme(), 3).unwrap().id;
    assert_eq!(vec![a, b, c, d, e], vec![1, 2, 3, 4, 5]);
    assert_eq!(s.last_allocated_id(), 5);
}

#[test]
fn missing_vendor_wastes_no_id() {
    let mut s = fresh();
    s.create_vendor(acme(), 1).unwrap();
    assert!(matches!(s.create_service(cleaning(9)), Err(Message::NotFound(_))));
    assert!(matches!(s.create_contract(contract(9)), Err(Message::NotFound(_))));
    assert!(matches!(s.create_feedback(feedback(9, 1, 1000), 5), Err(Message::NotFound(_))));
    assert_eq!(s.last_allocated_id(), 1);
    assert!(matches!(s.get_services_by_vendor_id(9), Err(Message::NotFound(_))));
    assert!(matches!(s.get_contracts_by_vendor_id(9), Err(Message::NotFound(_))));
    assert!(matches!(s.get_feedback_by_vendor_id(9), Err(Message::NotFound(_))));
    assert_eq!(s.create_service(cleaning(1)).unwrap().id, 2);
}

#[test]
fn ratings_follow_feedback() {
    let mut s = fresh();
    s.create_vendor(acme(), 1).unwrap();
    for (u, r) in [(1u64, 4000i64), (2, 5000), (3, 2500), (4, 0)] {
        s.create_feedback(feedback(1, u, r), 9).unwrap();
    }
    let v = s.get_vendor_by_id(1).unwrap();
    assert_eq!(v.ratings, vec![4000, 5000, 2500, 0]);
    assert_eq!(s.calculate_average_rating(1).unwrap(), (11500, 4));
    let fs = s.get_feedback_by_vendor_id(1).unwrap();
    assert_eq!(fs.len(), 4);
    assert_eq!(fs.iter().map(|f| f.user_id).collect::<Vec<_>>(), vec![1, 2, 3, 4]);
}

#[test]
fn average_keeps_exact_total_and_count() {
    let mut s = fresh();
    s.create_vendor(acme(), 1).unwrap();
    s.create_feedback(feedback(1, 1, 1), 1).unwrap();
    s.create_feedback(feedback(1, 2, 2), 1).unwrap();
    let (total, count) = s.calculate_average_rating(1).unwrap();
    assert_eq!((total, count), (3, 2));
    let mean = total as f64 / count as f64 / 1000.0;
    assert!((mean - 0.0015).abs() < 1e-9);
}

#[test]
fn not_found_messages_name_what_is_missing() {
    let mut s = fresh();
    match s.list_all_vendors() {
        Err(Message::NotFound(m)) => assert_eq!(m, "No vendors found"),
        other => panic!("unexpected {:?}", other),
    }
    s.create_vendor(acme(), 1).unwrap();
    match s.get_services_by_vendor_id(1) {
        Err(Message::NotFound(m)) => assert_eq!(m, "No services found for this vendor"),
        other => panic!("unexpected {:?}", other),
    }
    match s.get_contracts_by_vendor_id(1) {
        Err(Message::NotFound(m)) => assert_eq!(m, "No contracts found for this vendor"),
        other => panic!("unexpected {:?}", other),
    }
    match s.get_feedback_by_vendor_id(1) {
        Err(Message::NotFound(m)) => assert_eq!(m, "No feedback found for this vendor"),
        other => panic!("unexpected {:?}", other),
    }
    match s.calculate_average_rating(2) {
        Err(Message::NotFound(m)) => assert_eq!(m, "Vendor not found"),
        other => panic!("unexpected {:?}", other),
    }
    match s.create_feedback(feedback(1, 1, -5), 1) {
        Err(Message::InvalidPayload(m)) => assert_eq!(m, "Invalid feedback data"),
        other => panic!("unexpected {:?}", other),
    }
}

#[test]
fn listing_twice_gives_same_vendors() {
    let mut s = fresh();
    assert!(matches!(s.list_all_vendors(), Err(Message::NotFound(_))));
    s.create_vendor(acme(), 1).unwrap();
    let mut other = acme();
    other.name = "Bolt".to_string();
    other.services = vec!["Wiring".to_string(), "Repairs".to_string()];
    s.create_vendor(other, 2).unwrap();
    let first = s.list_all_vendors().unwrap();
    let second = s.list_all_vendors().unwrap();
    assert_eq!(first, second);
    assert_eq!(first.iter().map(|v| v.id).collect::<Vec<_>>(), vec![1, 2]);
    assert_eq!(first[1].services, vec!["Wiring".to_string(), "Repairs".to_string()]);
}

#[test]
fn vendor_requires_name_contact_email() {
    let mut s = fresh();
    for field in 0..3 {
        let mut p = acme();
        match field {
            0 => p.name = String::new(),
            1 => p.contact = String::new(),
            _ => p.email = String::new(),
        }
        match s.create_vendor(p, 1) {
            Err(Message::InvalidPayload(m)) => assert_eq!(m, "Missing required fields"),
            other => panic!("unexpected {:?}", other),
        }
    }
    assert_eq!(s.last_allocated_id(), 0);
}

#[test]
fn service_validation() {
    let mut s = fresh();
    s.create_vendor(acme(), 1).unwrap();
    let mut p = cleaning(1);
    p.price = 0;
    assert!(matches!(s.create_service(p), Err(Message::InvalidPayload(_))));
    let mut p = cleaning(1);
    p.name = String::new();
    assert!(matches!(s.create_service(p), Err(Message::InvalidPayload(_))));
    let mut p = cleaning(99);
    p.description = String::new();
    assert!(matches!(s.create_service(p), Err(Message::InvalidPayload(_))));
}

#[test]
fn contract_validation_and_listing() {
    let mut s = fresh();
    s.create_vendor(acme(), 1).unwrap();
    for field in 0..4 {
        let mut p = contract(1);
        match field {
            0 => p.vendor_id = 0,
            1 => p.department_id = 0,
            2 => p.start_date = 0,
            _ => p.end_date = 0,
        }
        assert!(matches!(s.create_contract(p), Err(Message::InvalidPayload(_))));
    }
    let c = s.create_contract(contract(1)).unwrap();
    assert!(c.is_active);
    assert_eq!(c.terms, "Net 30");
    let cs = s.get_contracts_by_vendor_id(1).unwrap();
    assert_eq!(cs, vec![c]);
}

#[test]
fn feedback_validation() {
    let mut s = fresh();
    s.create_vendor(acme(), 1).unwrap();
    assert!(matches!(s.create_feedback(feedback(0, 1, 100), 1), Err(Message::InvalidPayload(_))));
    assert!(matches!(s.create_feedback(feedback(1, 0, 100), 1), Err(Message::InvalidPayload(_))));
    assert!(matches!(s.create_feedback(feedback(1, 1, -1), 1), Err(Message::InvalidPayload(_))));
    assert!(matches!(s.create_feedback(feedback(1, 1, 5001), 1), Err(Message::InvalidPayload(_))));
    assert!(s.create_feedback(feedback(1, 1, 5000), 1).is_ok());
    assert!(s.create_feedback(feedback(1, 1, 0), 1).is_ok());
}

#[test]
fn services_are_filtered_by_vendor() {
    let mut s = fresh();
    s.create_vendor(acme(), 1).unwrap();
    s.create_vendor(acme(), 1).unwrap();
    s.create_service(cleaning(1)).unwrap();
    let mut p = cleaning(2);
    p.name = "Catering".to_string();
    s.create_service(p).unwrap();
    s.create_service(cleaning(1)).unwrap();
    let mine = s.get_services_by_vendor_id(1).unwrap();
    assert_eq!(mine.iter().map(|x| x.id).collect::<Vec<_>>(), vec![3, 5]);
    let theirs = s.get_services_by_vendor_id(2).unwrap();
    assert_eq!(theirs.len(), 1);
    assert_eq!(theirs[0].name, "Catering");
}

#[test]
fn oversized_record_is_refused_without_writing() {
    let mut s = fresh();
    let mut p = acme();
    p.address = "x".repeat(600);
    assert!(matches!(s.create_vendor(p, 1), Err(Message::InvalidPayload(_))));
    assert_eq!(s.last_allocated_id(), 0);
    assert!(matches!(s.list_all_vendors(), Err(Message::NotFound(_))));
}

#[test]
fn ratings_stop_at_record_bound() {
    let mut s = fresh();
    s.create_vendor(acme(), 1).unwrap();
    let mut accepted = 0;
    loop {
        match s.create_feedback(feedback(1, 1, 1000), 1) {
            Ok(_) => accepted += 1,
            Err(Message::InvalidPayload(_)) => break,
            Err(other) => panic!("unexpected {:?}", other),
        }
        assert!(accepted < 100);
    }
    assert!(accepted > 10);
    let v = s.get_vendor_by_id(1).unwrap();
    assert_eq!(v.ratings.len(), accepted);
    assert_eq!(s.get_feedback_by_vendor_id(1).unwrap().len(), accepted);
}

#[test]
fn unknown_vendor_is_not_found() {
    let s = fresh();
    match s.get_vendor_by_id(1) {
        Err(Message::NotFound(m)) => assert_eq!(m, "Vendor not found"),
        other => panic!("unexpected {:?}", other),
    }
}
