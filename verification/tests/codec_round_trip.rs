//! Round-trip and rejection tests for the entity codec.

use dancemode::codec::{
    decode_event, decode_package, decode_registration, decode_user, decode_venue, encode_event,
    encode_package, encode_registration, encode_user, encode_venue,
};
use dancemode::models::{
    DanceExperience, Event, EventType, Package, PaymentStatus, Registration, RegistrationStatus,
    User, Venue,
};
use dancemode::store::DbError;

fn sample_user(exp: DanceExperience, phone: Option<String>) -> User {
    User {
        id: 0x1234_5678_9abc_def0_1122_3344_5566_7788,
        email: "dancer@example.com".to_string(),
        password_hash: "argon-hash-placeholder".to_string(),
        first_name: "Mia".to_string(),
        last_name: "Koch".to_string(),
        phone,
        dance_experience: exp,
        created_at: 1_700_000_000_000,
        updated_at: 1_700_000_100_000,
        is_active: true,
    }
}

#[test]
fn user_round_trip_with_phone() {
    let u = sample_user(
        DanceExperience::Intermediate,
        Some("+49-30-1234567".to_string()),
    );
    let bytes = encode_user(&u);
    let back = decode_user(&bytes).unwrap();
    assert_eq!(back, u);
}

#[test]
fn user_round_trip_without_phone() {
    let u = sample_user(DanceExperience::Beginner, None);
    let back = decode_user(&encode_user(&u)).unwrap();
    assert_eq!(back, u);
}

#[test]
fn user_round_trip_every_experience() {
    for exp in [
        DanceExperience::Beginner,
        DanceExperience::Intermediate,
        DanceExperience::Advanced,
        DanceExperience::Professional,
    ] {
        let u = sample_user(exp, None);
        let back = decode_user(&encode_user(&u)).unwrap();
        assert_eq!(back, u);
    }
}

#[test]
fn user_round_trip_unicode_fields() {
    let mut u = sample_user(DanceExperience::Advanced, None);
    u.first_name = "Zoë".to_string();
    u.last_name = "Müller-Lüdenscheidt".to_string();
    u.email = "zoé@tanz.de".to_string();
    let back = decode_user(&encode_user(&u)).unwrap();
    assert_eq!(back, u);
}

#[test]
fn venue_round_trip() {
    let v = Venue {
        id: 7,
        name: "Kulturhaus".to_string(),
        address: "Hauptstraße 1, Berlin".to_string(),
        capacity: 450,
        description: Some("Two floors".to_string()),
    };
    assert_eq!(decode_venue(&encode_venue(&v)).unwrap(), v);
    let bare = Venue {
        description: None,
        ..v
    };
    assert_eq!(decode_venue(&encode_venue(&bare)).unwrap(), bare);
}

#[test]
fn package_round_trip() {
    let p = Package {
        id: u128::MAX,
        name: "Weekend Pass".to_string(),
        description: "All workshops, both days".to_string(),
        price: 14500,
        duration_days: 2,
        max_participants: 40,
    };
    assert_eq!(decode_package(&encode_package(&p)).unwrap(), p);
}

#[test]
fn event_round_trip_every_type() {
    for ty in [
        EventType::Workshop,
        EventType::Festival,
        EventType::Intensive,
        EventType::Social,
        EventType::Competition,
    ] {
        let e = Event {
            id: 42,
            title: "Opening Night".to_string(),
            description: "Doors at eight".to_string(),
            start_date: 1_759_276_800_000,
            end_date: 1_759_301_200_000,
            venue_id: 7,
            max_participants: 120,
            current_participants: 15,
            price: 2500,
            event_type: ty,
        };
        assert_eq!(decode_event(&encode_event(&e)).unwrap(), e);
    }
}

#[test]
fn registration_round_trip_every_status() {
    for status in [
        RegistrationStatus::Pending,
        RegistrationStatus::Confirmed,
        RegistrationStatus::Cancelled,
        RegistrationStatus::WaitingList,
    ] {
        for pay in [
            PaymentStatus::Pending,
            PaymentStatus::Completed,
            PaymentStatus::Failed,
            PaymentStatus::Refunded,
        ] {
            let g = Registration {
                id: 900,
                user_id: 17,
                event_id: Some(42),
                package_id: None,
                status,
                payment_status: pay,
                created_at: 1_700_000_000_000,
                updated_at: 1_700_000_000_000,
                amount_paid: 2500,
            };
            assert_eq!(decode_registration(&encode_registration(&g)).unwrap(), g);
        }
    }
}

#[test]
fn registration_round_trip_optional_references() {
    let g = Registration {
        id: 901,
        user_id: 17,
        event_id: None,
        package_id: Some(3),
        status: RegistrationStatus::Pending,
        payment_status: PaymentStatus::Pending,
        created_at: -5,
        updated_at: 0,
        amount_paid: 0,
    };
    assert_eq!(decode_registration(&encode_registration(&g)).unwrap(), g);
}

#[test]
fn decode_rejects_wrong_kind_tag() {
    let v = Venue {
        id: 7,
        name: "Kulturhaus".to_string(),
        address: "Hauptstraße 1".to_string(),
        capacity: 450,
        description: None,
    };
    let bytes = encode_venue(&v);
    assert_eq!(decode_user(&bytes), Err(DbError::Decode));
    assert_eq!(decode_event(&bytes), Err(DbError::Decode));
}

#[test]
fn decode_rejects_truncated_input() {
    let u = sample_user(DanceExperience::Beginner, None);
    let mut bytes = encode_user(&u);
    bytes.truncate(bytes.len() - 1);
    assert_eq!(decode_user(&bytes), Err(DbError::Decode));
    assert_eq!(decode_user(&Vec::new()), Err(DbError::Decode));
}

#[test]
fn decode_rejects_trailing_bytes() {
    let u = sample_user(DanceExperience::Beginner, None);
    let mut bytes = encode_user(&u);
    bytes.push(0);
    assert_eq!(decode_user(&bytes), Err(DbError::Decode));
}

#[test]
fn decode_rejects_unknown_enum_tag() {
    let u = sample_user(DanceExperience::Professional, None);
    let mut bytes = encode_user(&u);
    // The experience tag sits 18 bytes before the end: tag, two
    // timestamps of eight bytes each, and the active flag follow it.
    let pos = bytes.len() - 18;
    bytes[pos] = 99;
    assert_eq!(decode_user(&bytes), Err(DbError::Decode));
}

#[test]
fn decode_rejects_bad_bool_byte() {
    let u = sample_user(DanceExperience::Professional, None);
    let mut bytes = encode_user(&u);
    let pos = bytes.len() - 1;
    bytes[pos] = 2;
    assert_eq!(decode_user(&bytes), Err(DbError::Decode));
}

#[test]
fn decode_rejects_invalid_utf8_in_string() {
    let u = sample_user(DanceExperience::Beginner, None);
    let mut bytes = encode_user(&u);
    // The email field starts after the kind tag and the 16-byte
    // identifier, with an 8-byte length prefix; corrupt its first byte.
    bytes[1 + 16 + 8] = 0xFF;
    assert_eq!(decode_user(&bytes), Err(DbError::Decode));
}
