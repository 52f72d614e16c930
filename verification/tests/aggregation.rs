//! Export, import, statistics, wipe and seeding tests.

use dancemode::database::Database;
use dancemode::models::{
    ApiResponse, DanceExperience, Event, EventType, Package, PaymentStatus, Registration,
    RegistrationStatus, User, UserProfile, Venue,
};

fn user(id: u128, email: &str) -> User {
    User {
        id,
        email: email.to_string(),
        password_hash: "argon-hash-placeholder".to_string(),
        first_name: "Ada".to_string(),
        last_name: "Lehmann".to_string(),
        phone: Some("+49-30-555".to_string()),
        dance_experience: DanceExperience::Advanced,
        created_at: 1000,
        updated_at: 1000,
        is_active: true,
    }
}

fn venue(id: u128, name: &str) -> Venue {
    Venue {
        id,
        name: name.to_string(),
        address: "Somewhere 1".to_string(),
        capacity: 300,
        description: None,
    }
}

fn package(id: u128, price: u64) -> Package {
    Package {
        id,
        name: format!("pack-{}", id),
        description: "A bundle".to_string(),
        price,
        duration_days: 1,
        max_participants: 10,
    }
}

fn event(id: u128, start_date: i64) -> Event {
    Event {
        id,
        title: format!("event-{}", id),
        description: "An evening of dance".to_string(),
        start_date,
        end_date: start_date + 1,
        venue_id: 1,
        max_participants: 50,
        current_participants: 0,
        price: 1500,
        event_type: EventType::Workshop,
    }
}

fn registration(id: u128, user_id: u128) -> Registration {
    Registration {
        id,
        user_id,
        event_id: None,
        package_id: None,
        status: RegistrationStatus::Confirmed,
        payment_status: PaymentStatus::Completed,
        created_at: 500,
        updated_at: 500,
        amount_paid: 1500,
    }
}

#[test]
fn statistics_count_each_kind() {
    let mut db = Database::temporary().unwrap();
    for i in 0..3u128 {
        db.create_user(&user(i, &format!("u{}@example.com", i)))
            .unwrap();
    }
    for i in 0..2u128 {
        db.create_event(&event(i, 1000 + i as i64)).unwrap();
    }
    let st = db.get_data_statistics().unwrap();
    assert_eq!(st.users, 3);
    assert_eq!(st.events, 2);
    assert_eq!(st.venues, 0);
    assert_eq!(st.packages, 0);
    assert_eq!(st.registrations, 0);
    assert_eq!(st.total_records, 5);
}

#[test]
fn statistics_on_empty_store_are_zero() {
    let db = Database::temporary().unwrap();
    let st = db.get_data_statistics().unwrap();
    assert_eq!(st.total_records, 0);
}

#[test]
fn clear_all_data_empties_the_store() {
    let mut db = Database::temporary().unwrap();
    db.create_user(&user(1, "a@example.com")).unwrap();
    db.create_venue(&venue(1, "Arena")).unwrap();
    db.clear_all_data().unwrap();
    let st = db.get_data_statistics().unwrap();
    assert_eq!(st.total_records, 0);
    assert_eq!(db.get_user_by_id(1).unwrap(), None);
}

#[test]
fn export_import_round_trip_on_cleared_store() {
    let mut db = Database::temporary().unwrap();
    db.create_venue(&venue(1, "Arena")).unwrap();
    db.create_venue(&venue(2, "Kater")).unwrap();
    db.create_user(&user(10, "a@example.com")).unwrap();
    db.create_package(&package(20, 4500)).unwrap();
    db.create_event(&event(30, 1000)).unwrap();
    db.create_event(&event(31, 2000)).unwrap();
    db.create_event(&event(32, 3000)).unwrap();
    db.create_registration(&registration(40, 10)).unwrap();
    let snapshot = db.export_all_data().unwrap();
    assert_eq!(snapshot.version, "1.0");
    db.clear_all_data().unwrap();
    assert_eq!(db.get_data_statistics().unwrap().total_records, 0);
    db.import_all_data(&snapshot).unwrap();
    let st = db.get_data_statistics().unwrap();
    assert_eq!(st.venues, 2);
    assert_eq!(st.users, 1);
    assert_eq!(st.packages, 1);
    assert_eq!(st.events, 3);
    assert_eq!(st.registrations, 1);
    assert_eq!(st.total_records, 8);
    let events = db.get_all_events().unwrap();
    assert_eq!(events.len(), 3);
    assert_eq!(events[0].id, 30);
    assert_eq!(db.get_user_by_email("a@example.com").unwrap().unwrap().id, 10);
}

#[test]
fn seeding_is_idempotent() {
    let mut db = Database::temporary().unwrap();
    let venues = vec![venue(1, "Arena"), venue(2, "Kater")];
    let packages = vec![package(10, 4500)];
    let events = vec![event(20, 1000), event(21, 2000)];
    db.init_sample_data(&venues, &packages, &events).unwrap();
    let st1 = db.get_data_statistics().unwrap();
    assert_eq!(st1.venues, 2);
    assert_eq!(st1.packages, 1);
    assert_eq!(st1.events, 2);
    db.init_sample_data(&venues, &packages, &events).unwrap();
    let st2 = db.get_data_statistics().unwrap();
    assert_eq!(st2.venues, 2);
    assert_eq!(st2.packages, 1);
    assert_eq!(st2.events, 2);
    assert_eq!(st2.total_records, 5);
}

#[test]
fn seeding_skips_a_store_that_already_has_events() {
    let mut db = Database::temporary().unwrap();
    db.create_event(&event(99, 42)).unwrap();
    let venues = vec![venue(1, "Arena")];
    let packages = vec![package(10, 4500)];
    let events = vec![event(20, 1000)];
    db.init_sample_data(&venues, &packages, &events).unwrap();
    let st = db.get_data_statistics().unwrap();
    assert_eq!(st.venues, 0);
    assert_eq!(st.packages, 0);
    assert_eq!(st.events, 1);
}

#[test]
fn api_response_envelopes() {
    let ok: ApiResponse<u32> = ApiResponse::success(7);
    assert!(ok.success);
    assert_eq!(ok.data, Some(7));
    assert!(ok.message.is_none() && ok.errors.is_none());

    let err: ApiResponse<u32> = ApiResponse::error("boom".to_string());
    assert!(!err.success);
    assert_eq!(err.message.as_deref(), Some("boom"));
    assert!(err.data.is_none() && err.errors.is_none());

    let bad: ApiResponse<u32> = ApiResponse::validation_error(vec!["too short".to_string()]);
    assert!(!bad.success);
    assert_eq!(bad.message.as_deref(), Some("Validation failed"));
    assert_eq!(bad.errors, Some(vec!["too short".to_string()]));
}

#[test]
fn user_profile_drops_credentials() {
    let u = user(10, "a@example.com");
    let p = UserProfile::from(u.clone());
    assert_eq!(p.id, u.id);
    assert_eq!(p.email, u.email);
    assert_eq!(p.first_name, u.first_name);
    assert_eq!(p.phone, u.phone);
    assert_eq!(p.created_at, u.created_at);
}

#[test]
fn increment_changes_no_counts() {
    let mut db = Database::temporary().unwrap();
    db.create_event(&event(1, 1000)).unwrap();
    let before = db.get_data_statistics().unwrap();
    db.increment_event_participants(1).unwrap();
    let after = db.get_data_statistics().unwrap();
    assert_eq!(before.events, after.events);
    assert_eq!(before.total_records, after.total_records);
}
