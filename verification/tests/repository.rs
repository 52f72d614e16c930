//! Repository tests against a fresh temporary store.

use dancemode::database::Database;
use dancemode::models::{
    DanceExperience, Event, EventType, Package, PaymentStatus, Registration, RegistrationStatus,
    User, Venue,
};

const OCT_01: i64 = 1759276800000;
const OCT_05: i64 = 1759622400000;
const OCT_10: i64 = 1760054400000;

fn user(id: u128, email: &str, created_at: i64) -> User {
    User {
        id,
        email: email.to_string(),
        password_hash: "argon-hash-placeholder".to_string(),
        first_name: "Ada".to_string(),
        last_name: "Lehmann".to_string(),
        phone: None,
        dance_experience: DanceExperience::Beginner,
        created_at,
        updated_at: created_at,
        is_active: true,
    }
}

fn event(id: u128, title: &str, start_date: i64) -> Event {
    Event {
        id,
        title: title.to_string(),
        description: "An evening of dance".to_string(),
        start_date,
        end_date: start_date + 3_600_000,
        venue_id: 1,
        max_participants: 100,
        current_participants: 0,
        price: 2000,
        event_type: EventType::Social,
    }
}

fn registration(id: u128, user_id: u128, created_at: i64) -> Registration {
    Registration {
        id,
        user_id,
        event_id: None,
        package_id: None,
        status: RegistrationStatus::Pending,
        payment_status: PaymentStatus::Pending,
        created_at,
        updated_at: created_at,
        amount_paid: 0,
    }
}

#[test]
fn create_and_get_user_by_id() {
    let mut db = Database::temporary().unwrap();
    let u = user(11, "ada@example.com", 1000);
    db.create_user(&u).unwrap();
    assert_eq!(db.get_user_by_id(11).unwrap(), Some(u));
    assert_eq!(db.get_user_by_id(12).unwrap(), None);
}

#[test]
fn get_user_by_email_resolves_index() {
    let mut db = Database::temporary().unwrap();
    let u = user(11, "ada@example.com", 1000);
    db.create_user(&u).unwrap();
    assert_eq!(db.get_user_by_email("ada@example.com").unwrap(), Some(u));
    assert_eq!(db.get_user_by_email("nobody@example.com").unwrap(), None);
}

#[test]
fn email_uniqueness_under_check_then_create() {
    // The caller-side pattern: check the email, create only on a miss.
    // Run sequentially, the second create is refused and the lookup keeps
    // answering with the first user.
    let mut db = Database::temporary().unwrap();
    let first = user(11, "shared@example.com", 1000);
    let second = user(22, "shared@example.com", 2000);
    assert_eq!(db.get_user_by_email("shared@example.com").unwrap(), None);
    db.create_user(&first).unwrap();
    let hit = db.get_user_by_email("shared@example.com").unwrap();
    assert!(hit.is_some());
    if hit.is_none() {
        db.create_user(&second).unwrap();
    }
    assert_eq!(
        db.get_user_by_email("shared@example.com").unwrap(),
        Some(first)
    );
}

#[test]
fn events_listed_by_start_date_ascending() {
    let mut db = Database::temporary().unwrap();
    db.create_event(&event(1, "Mid", OCT_05)).unwrap();
    db.create_event(&event(2, "Early", OCT_01)).unwrap();
    db.create_event(&event(3, "Late", OCT_10)).unwrap();
    let all = db.get_all_events().unwrap();
    let starts: Vec<i64> = all.iter().map(|e| e.start_date).collect();
    assert_eq!(starts, vec![OCT_01, OCT_05, OCT_10]);
    assert_eq!(all[0].title, "Early");
    assert_eq!(all[1].title, "Mid");
    assert_eq!(all[2].title, "Late");
}

#[test]
fn packages_listed_by_price_ascending() {
    let mut db = Database::temporary().unwrap();
    for (id, price) in [(1u128, 8500u64), (2, 4500), (3, 18000)] {
        db.create_package(&Package {
            id,
            name: format!("pack-{}", id),
            description: "A bundle".to_string(),
            price,
            duration_days: 1,
            max_participants: 10,
        })
        .unwrap();
    }
    let all = db.get_all_packages().unwrap();
    let prices: Vec<u64> = all.iter().map(|p| p.price).collect();
    assert_eq!(prices, vec![4500, 8500, 18000]);
}

#[test]
fn venues_listed_by_name() {
    let mut db = Database::temporary().unwrap();
    for (id, name) in [(1u128, "Tresor"), (2, "Arena"), (3, "Kater")] {
        db.create_venue(&Venue {
            id,
            name: name.to_string(),
            address: "Somewhere 1".to_string(),
            capacity: 100,
            description: None,
        })
        .unwrap();
    }
    let names: Vec<String> = db
        .get_all_venues()
        .unwrap()
        .into_iter()
        .map(|v| v.name)
        .collect();
    assert_eq!(names, vec!["Arena", "Kater", "Tresor"]);
}

#[test]
fn users_listed_by_creation_time() {
    let mut db = Database::temporary().unwrap();
    db.create_user(&user(1, "c@example.com", 3000)).unwrap();
    db.create_user(&user(2, "a@example.com", 1000)).unwrap();
    db.create_user(&user(3, "b@example.com", 2000)).unwrap();
    let ids: Vec<u128> = db.get_all_users().unwrap().iter().map(|u| u.id).collect();
    assert_eq!(ids, vec![2, 3, 1]);
}

#[test]
fn registrations_filtered_by_user_newest_first() {
    let mut db = Database::temporary().unwrap();
    let wanted: u128 = 77;
    db.create_registration(&registration(1, wanted, 1000)).unwrap();
    db.create_registration(&registration(2, 5, 1500)).unwrap();
    db.create_registration(&registration(3, wanted, 3000)).unwrap();
    db.create_registration(&registration(4, 6, 2000)).unwrap();
    db.create_registration(&registration(5, 9, 2500)).unwrap();
    let mine = db.get_user_registrations(wanted).unwrap();
    assert_eq!(mine.len(), 2);
    assert_eq!(mine[0].id, 3);
    assert_eq!(mine[1].id, 1);
    assert!(mine.iter().all(|g| g.user_id == wanted));
}

#[test]
fn all_registrations_listed_newest_first() {
    let mut db = Database::temporary().unwrap();
    db.create_registration(&registration(1, 5, 1000)).unwrap();
    db.create_registration(&registration(2, 5, 3000)).unwrap();
    db.create_registration(&registration(3, 5, 2000)).unwrap();
    let ids: Vec<u128> = db
        .get_all_registrations()
        .unwrap()
        .iter()
        .map(|g| g.id)
        .collect();
    assert_eq!(ids, vec![2, 3, 1]);
}

#[test]
fn get_event_by_id_round_trips() {
    let mut db = Database::temporary().unwrap();
    let e = event(42, "Opening", OCT_01);
    db.create_event(&e).unwrap();
    assert_eq!(db.get_event_by_id(42).unwrap(), Some(e));
    assert_eq!(db.get_event_by_id(43).unwrap(), None);
}

#[test]
fn increment_participants_counts_up() {
    let mut db = Database::temporary().unwrap();
    db.create_event(&event(42, "Opening", OCT_01)).unwrap();
    db.increment_event_participants(42).unwrap();
    db.increment_event_participants(42).unwrap();
    let e = db.get_event_by_id(42).unwrap().unwrap();
    assert_eq!(e.current_participants, 2);
}

#[test]
fn increment_participants_exceeds_the_cap() {
    // Over-booking is allowed by design: the counter passes the maximum
    // without complaint.
    let mut db = Database::temporary().unwrap();
    let mut e = event(42, "Full House", OCT_01);
    e.max_participants = 2;
    e.current_participants = 2;
    db.create_event(&e).unwrap();
    db.increment_event_participants(42).unwrap();
    let after = db.get_event_by_id(42).unwrap().unwrap();
    assert_eq!(after.current_participants, 3);
    assert!(after.current_participants > after.max_participants);
}

#[test]
fn increment_missing_event_is_a_silent_no_op() {
    let mut db = Database::temporary().unwrap();
    db.increment_event_participants(4242).unwrap();
    assert_eq!(db.get_event_by_id(4242).unwrap(), None);
}

#[test]
fn create_overwrites_same_identifier() {
    let mut db = Database::temporary().unwrap();
    db.create_event(&event(42, "Before", OCT_01)).unwrap();
    db.create_event(&event(42, "After", OCT_05)).unwrap();
    let all = db.get_all_events().unwrap();
    assert_eq!(all.len(), 1);
    assert_eq!(all[0].title, "After");
}

#[test]
fn venue_order_follows_character_codes() {
    // Ordering is by plain character code, so an umlaut initial sorts
    // after every ASCII capital.
    let mut db = Database::temporary().unwrap();
    for (id, name) in [(1u128, "Zelt"), (2, "Ärena"), (3, "Halle")] {
        db.create_venue(&Venue {
            id,
            name: name.to_string(),
            address: "Somewhere 1".to_string(),
            capacity: 100,
            description: None,
        })
        .unwrap();
    }
    let names: Vec<String> = db
        .get_all_venues()
        .unwrap()
        .into_iter()
        .map(|v| v.name)
        .collect();
    assert_eq!(names, vec!["Halle", "Zelt", "Ärena"]);
}

#[test]
fn email_index_entries_stay_independent() {
    let mut db = Database::temporary().unwrap();
    db.create_user(&user(1, "a@example.com", 1000)).unwrap();
    db.create_user(&user(2, "b@example.com", 2000)).unwrap();
    assert_eq!(db.get_user_by_email("a@example.com").unwrap().unwrap().id, 1);
    assert_eq!(db.get_user_by_email("b@example.com").unwrap().unwrap().id, 2);
}
