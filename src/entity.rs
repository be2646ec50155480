use vstd::prelude::*;

verus! {

/// A supplier known to the registry.
///
/// Ratings are kept in thousandths of a point, so `4500` stands for 4.5.
#[derive(Clone, Debug, PartialEq)]
pub struct Vendor {
    pub id: u64,
    pub name: String,
    pub services: Vec<String>,
    pub contact: String,
    pub email: String,
    pub address: String,
    pub ratings: Vec<u64>,
    pub created_at: u64,
}

/// A service that a vendor offers.
#[derive(Clone, Debug, PartialEq)]
pub struct Service {
    pub id: u64,
    pub vendor_id: u64,
    pub name: String,
    pub description: String,
    pub price: u64,
    pub is_available: bool,
}

/// An agreement between a vendor and a department.
#[derive(Clone, Debug, PartialEq)]
pub struct Contract {
    pub id: u64,
    pub vendor_id: u64,
    pub department_id: u64,
    pub start_date: u64,
    pub end_date: u64,
    pub terms: String,
    pub is_active: bool,
}

/// A user's rating of a vendor, in thousandths of a point (0 to 5000).
#[derive(Clone, Debug, PartialEq)]
pub struct Feedback {
    pub id: u64,
    pub vendor_id: u64,
    pub user_id: u64,
    pub rating: u64,
    pub comment: String,
    pub timestamp: u64,
}

#[derive(Clone, Debug, PartialEq)]
pub struct CreateVendorPayload {
    pub name: String,
    pub services: Vec<String>,
    pub contact: String,
    pub email: String,
    pub address: String,
}

#[derive(Clone, Debug, PartialEq)]
pub struct CreateServicePayload {
    pub vendor_id: u64,
    pub name: String,
    pub description: String,
    pub price: u64,
}

#[derive(Clone, Debug, PartialEq)]
pub struct CreateContractPayload {
    pub vendor_id: u64,
    pub department_id: u64,
    pub start_date: u64,
    pub end_date: u64,
    pub terms: String,
}

/// The rating is signed so that a negative score reaches validation and is refused there.
#[derive(Clone, Debug, PartialEq)]
pub struct CreateFeedbackPayload {
    pub vendor_id: u64,
    pub user_id: u64,
    pub rating: i64,
    pub comment: String,
}

/// Outcome of a failed operation, with a human-readable explanation.
#[derive(Clone, Debug, PartialEq)]
pub enum Message {
    Success(String),
    Error(String),
    NotFound(String),
    InvalidPayload(String),
}

pub ghost struct VendorModel {
    pub id: u64,
    pub name: Seq<char>,
    pub services: Seq<Seq<char>>,
    pub contact: Seq<char>,
    pub email: Seq<char>,
    pub address: Seq<char>,
    pub ratings: Seq<u64>,
    pub created_at: u64,
}

pub ghost struct ServiceModel {
    pub id: u64,
    pub vendor_id: u64,
    pub name: Seq<char>,
    pub description: Seq<char>,
    pub price: u64,
    pub is_available: bool,
}

pub ghost struct ContractModel {
    pub id: u64,
    pub vendor_id: u64,
    pub department_id: u64,
    pub start_date: u64,
    pub end_date: u64,
    pub terms: Seq<char>,
    pub is_active: bool,
}

pub ghost struct FeedbackModel {
    pub id: u64,
    pub vendor_id: u64,
    pub user_id: u64,
    pub rating: u64,
    pub comment: Seq<char>,
    pub timestamp: u64,
}

pub open spec fn strings_view(v: Seq<String>) -> Seq<Seq<char>> {
    v.map_values(|s: String| s@)
}

impl View for Vendor {
    type V = VendorModel;

    open spec fn view(&self) -> VendorModel {
        VendorModel {
            id: self.id,
            name: self.name@,
            services: strings_view(self.services@),
            contact: self.contact@,
            email: self.email@,
            address: self.address@,
            ratings: self.ratings@,
            created_at: self.created_at,
        }
    }
}

impl View for Service {
    type V = ServiceModel;

    open spec fn view(&self) -> ServiceModel {
        ServiceModel {
            id: self.id,
            vendor_id: self.vendor_id,
            name: self.name@,
            description: self.description@,
            price: self.price,
            is_available: self.is_available,
        }
    }
}

impl View for Contract {
    type V = ContractModel;

    open spec fn view(&self) -> ContractModel {
        ContractModel {
            id: self.id,
            vendor_id: self.vendor_id,
            department_id: self.department_id,
            start_date: self.start_date,
            end_date: self.end_date,
            terms: self.terms@,
            is_active: self.is_active,
        }
    }
}

impl View for Feedback {
    type V = FeedbackModel;

    open spec fn view(&self) -> FeedbackModel {
        FeedbackModel {
            id: self.id,
            vendor_id: self.vendor_id,
            user_id: self.user_id,
            rating: self.rating,
            comment: self.comment@,
            timestamp: self.timestamp,
        }
    }
}

} // verus!
