//! Entity types of the booking system, their spec-level views, and the
//! plain request/response types that the HTTP layer exchanges with callers.
//!
//! Identifiers are 128-bit values (rendered as hyphenated hex in store keys),
//! timestamps are milliseconds since the Unix epoch, and money amounts are
//! integers in minor currency units.

use vstd::prelude::*;

verus! {

/// Self-declared dance experience of a user.
#[derive(Debug, Clone, Copy, PartialEq, Eq, Structural)]
pub enum DanceExperience {
    Beginner,
    Intermediate,
    Advanced,
    Professional,
}

/// Category of an event.
#[derive(Debug, Clone, Copy, PartialEq, Eq, Structural)]
pub enum EventType {
    Workshop,
    Festival,
    Intensive,
    Social,
    Competition,
}

/// Lifecycle state of a registration.
#[derive(Debug, Clone, Copy, PartialEq, Eq, Structural)]
pub enum RegistrationStatus {
    Pending,
    Confirmed,
    Cancelled,
    WaitingList,
}

/// Payment state of a registration.
#[derive(Debug, Clone, Copy, PartialEq, Eq, Structural)]
pub enum PaymentStatus {
    Pending,
    Completed,
    Failed,
    Refunded,
}

/// A registered account.
#[derive(Debug, Clone, PartialEq)]
pub struct User {
    pub id: u128,
    pub email: String,
    pub password_hash: String,
    pub first_name: String,
    pub last_name: String,
    pub phone: Option<String>,
    pub dance_experience: DanceExperience,
    pub created_at: i64,
    pub updated_at: i64,
    pub is_active: bool,
}

/// Spec-level value of a [`User`].
pub struct UserView {
    pub id: u128,
    pub email: Seq<char>,
    pub password_hash: Seq<char>,
    pub first_name: Seq<char>,
    pub last_name: Seq<char>,
    pub phone: Option<Seq<char>>,
    pub dance_experience: DanceExperience,
    pub created_at: i64,
    pub updated_at: i64,
    pub is_active: bool,
}

impl View for User {
    type V = UserView;

    open spec fn view(&self) -> UserView {
        UserView {
            id: self.id,
            email: self.email@,
            password_hash: self.password_hash@,
            first_name: self.first_name@,
            last_name: self.last_name@,
            phone: match self.phone {
                Some(p) => Some(p@),
                None => None,
            },
            dance_experience: self.dance_experience,
            created_at: self.created_at,
            updated_at: self.updated_at,
            is_active: self.is_active,
        }
    }
}

/// A place where events happen.
#[derive(Debug, Clone, PartialEq)]
pub struct Venue {
    pub id: u128,
    pub name: String,
    pub address: String,
    pub capacity: u32,
    pub description: Option<String>,
}

/// Spec-level value of a [`Venue`].
pub struct VenueView {
    pub id: u128,
    pub name: Seq<char>,
    pub address: Seq<char>,
    pub capacity: u32,
    pub description: Option<Seq<char>>,
}

impl View for Venue {
    type V = VenueView;

    open spec fn view(&self) -> VenueView {
        VenueView {
            id: self.id,
            name: self.name@,
            address: self.address@,
            capacity: self.capacity,
            description: match self.description {
                Some(d) => Some(d@),
                None => None,
            },
        }
    }
}

/// A bookable bundle with a price in minor currency units.
#[derive(Debug, Clone, PartialEq)]
pub struct Package {
    pub id: u128,
    pub name: String,
    pub description: String,
    pub price: u64,
    pub duration_days: u32,
    pub max_participants: u32,
}

/// Spec-level value of a [`Package`].
pub struct PackageView {
    pub id: u128,
    pub name: Seq<char>,
    pub description: Seq<char>,
    pub price: u64,
    pub duration_days: u32,
    pub max_participants: u32,
}

impl View for Package {
    type V = PackageView;

    open spec fn view(&self) -> PackageView {
        PackageView {
            id: self.id,
            name: self.name@,
            description: self.description@,
            price: self.price,
            duration_days: self.duration_days,
            max_participants: self.max_participants,
        }
    }
}

/// A scheduled event at a venue.
#[derive(Debug, Clone, PartialEq)]
pub struct Event {
    pub id: u128,
    pub title: String,
    pub description: String,
    pub start_date: i64,
    pub end_date: i64,
    pub venue_id: u128,
    pub max_participants: u32,
    pub current_participants: u32,
    pub price: u64,
    pub event_type: EventType,
}

/// Spec-level value of an [`Event`].
pub struct EventView {
    pub id: u128,
    pub title: Seq<char>,
    pub description: Seq<char>,
    pub start_date: i64,
    pub end_date: i64,
    pub venue_id: u128,
    pub max_participants: u32,
    pub current_participants: u32,
    pub price: u64,
    pub event_type: EventType,
}

impl View for Event {
    type V = EventView;

    open spec fn view(&self) -> EventView {
        EventView {
            id: self.id,
            title: self.title@,
            description: self.description@,
            start_date: self.start_date,
            end_date: self.end_date,
            venue_id: self.venue_id,
            max_participants: self.max_participants,
            current_participants: self.current_participants,
            price: self.price,
            event_type: self.event_type,
        }
    }
}

/// A booking of an event or a package by a user.
#[derive(Debug, Clone, PartialEq)]
pub struct Registration {
    pub id: u128,
    pub user_id: u128,
    pub event_id: Option<u128>,
    pub package_id: Option<u128>,
    pub status: RegistrationStatus,
    pub payment_status: PaymentStatus,
    pub created_at: i64,
    pub updated_at: i64,
    pub amount_paid: u64,
}

/// Spec-level value of a [`Registration`].
pub struct RegistrationView {
    pub id: u128,
    pub user_id: u128,
    pub event_id: Option<u128>,
    pub package_id: Option<u128>,
    pub status: RegistrationStatus,
    pub payment_status: PaymentStatus,
    pub created_at: i64,
    pub updated_at: i64,
    pub amount_paid: u64,
}

impl View for Registration {
    type V = RegistrationView;

    open spec fn view(&self) -> RegistrationView {
        RegistrationView {
            id: self.id,
            user_id: self.user_id,
            event_id: self.event_id,
            package_id: self.package_id,
            status: self.status,
            payment_status: self.payment_status,
            created_at: self.created_at,
            updated_at: self.updated_at,
            amount_paid: self.amount_paid,
        }
    }
}

/// Payload for creating a user account.
#[derive(Debug, Clone)]
pub struct CreateUserRequest {
    pub email: String,
    pub password: String,
    pub first_name: String,
    pub last_name: String,
    pub phone: Option<String>,
    pub dance_experience: DanceExperience,
}

/// Payload for logging in.
#[derive(Debug, Clone)]
pub struct LoginRequest {
    pub email: String,
    pub password: String,
}

/// Payload for creating a venue.
#[derive(Debug, Clone)]
pub struct CreateVenueRequest {
    pub name: String,
    pub address: String,
    pub capacity: u32,
    pub description: Option<String>,
}

/// Payload for creating an event.
#[derive(Debug, Clone)]
pub struct CreateEventRequest {
    pub title: String,
    pub description: String,
    pub start_date: i64,
    pub end_date: i64,
    pub venue_id: u128,
    pub max_participants: u32,
    pub price: u64,
    pub event_type: EventType,
}

/// Payload for creating a package.
#[derive(Debug, Clone)]
pub struct CreatePackageRequest {
    pub name: String,
    pub description: String,
    pub price: u64,
    pub duration_days: u32,
    pub max_participants: u32,
}

/// Payload for creating a registration.
#[derive(Debug, Clone)]
pub struct CreateRegistrationRequest {
    pub event_id: Option<u128>,
    pub package_id: Option<u128>,
}

/// Payload for paying for a registration.
#[derive(Debug, Clone)]
pub struct PaymentRequest {
    pub registration_id: u128,
    pub payment_method: String,
    pub amount: u64,
}

/// Public part of a user account, without credentials.
#[derive(Debug, Clone, PartialEq)]
pub struct UserProfile {
    pub id: u128,
    pub email: String,
    pub first_name: String,
    pub last_name: String,
    pub phone: Option<String>,
    pub dance_experience: DanceExperience,
    pub created_at: i64,
}

impl From<User> for UserProfile {
    fn from(user: User) -> (r: UserProfile) {
        UserProfile {
            id: user.id,
            email: user.email,
            first_name: user.first_name,
            last_name: user.last_name,
            phone: user.phone,
            dance_experience: user.dance_experience,
            created_at: user.created_at,
        }
    }
}

impl vstd::std_specs::convert::FromSpecImpl<User> for UserProfile {
    open spec fn obeys_from_spec() -> bool {
        true
    }

    open spec fn from_spec(user: User) -> UserProfile {
        UserProfile {
            id: user.id,
            email: user.email,
            first_name: user.first_name,
            last_name: user.last_name,
            phone: user.phone,
            dance_experience: user.dance_experience,
            created_at: user.created_at,
        }
    }
}

/// Token plus the profile it was minted for.
#[derive(Debug, Clone)]
pub struct AuthResponse {
    pub token: String,
    pub user: UserProfile,
}

/// Claims embedded in an authentication token.
#[derive(Debug, Clone)]
pub struct Claims {
    pub sub: String,
    pub email: String,
    pub exp: usize,
    pub iat: usize,
}

/// Uniform envelope for results handed to the HTTP layer.
#[derive(Debug, Clone)]
pub struct ApiResponse<T> {
    pub success: bool,
    pub data: Option<T>,
    pub message: Option<String>,
    pub errors: Option<Vec<String>>,
}

impl<T> ApiResponse<T> {
    /// Envelope for a successful result carrying `data`.
    pub fn success(data: T) -> (r: ApiResponse<T>)
        ensures
            r.success == true,
            r.data == Some(data),
            r.message is None,
            r.errors is None,
    {
        ApiResponse { success: true, data: Some(data), message: None, errors: None }
    }

    /// Envelope for a failure described by one message.
    pub fn error(message: String) -> (r: ApiResponse<T>)
        ensures
            r.success == false,
            r.data is None,
            r.message == Some(message),
            r.errors is None,
    {
        ApiResponse { success: false, data: None, message: Some(message), errors: None }
    }

    /// Envelope for a failed validation carrying all findings.
    pub fn validation_error(errors: Vec<String>) -> (r: ApiResponse<T>)
        ensures
            r.success == false,
            r.data is None,
            r.message matches Some(m) && m@ == "Validation failed"@,
            r.errors == Some(errors),
    {
        ApiResponse {
            success: false,
            data: None,
            message: Some("Validation failed".to_owned()),
            errors: Some(errors),
        }
    }
}


/// Snapshot of every record of every kind, with an export timestamp and a
/// human-readable format version tag.
#[derive(Debug, Clone)]
pub struct DatabaseExport {
    pub users: Vec<User>,
    pub events: Vec<Event>,
    pub venues: Vec<Venue>,
    pub packages: Vec<Package>,
    pub registrations: Vec<Registration>,
    pub exported_at: i64,
    pub version: String,
}

/// Per-kind record counts, their total, and the wall-clock time they were
/// taken at.
#[derive(Debug, Clone, PartialEq, Eq, Structural)]
pub struct DataStatistics {
    pub users: usize,
    pub events: usize,
    pub venues: usize,
    pub packages: usize,
    pub registrations: usize,
    pub total_records: usize,
    pub last_updated: i64,
}

/// A batch of creation requests.
#[derive(Debug, Clone)]
pub struct BulkCreateRequest<T> {
    pub data: Vec<T>,
}

/// Outcome of a batch of creation requests.
#[derive(Debug, Clone)]
pub struct BulkOperationResponse {
    pub success_count: u32,
    pub error_count: u32,
    pub errors: Vec<String>,
}

} // verus!
