use drink_rooms::room_id::{format_room_id, parse_room_id, room_id_from_uuid};
use drink_rooms::store::{RoomStore, INACTIVITY_LIMIT_SECS};
use drink_rooms::units::UnitSize;

#[test]
fn room_code_round_trips() {
    for code in [0u16, 1, 0x00FF, 0x1234, 0xABCD, 0xFFFF] {
        let text = format_room_id(code);
        assert_eq!(text.len(), 4);
        assert_eq!(parse_room_id(&text), Some(code));
    }
    assert_eq!(format_room_id(0x0A0B), "0A0B");
    assert_eq!(format_room_id(0xBEEF), "BEEF");
}

#[test]
fn room_code_parsing_refuses_other_texts() {
    for text in ["", "ABC", "ABCDE", "abcd", "ABCG", "12 4", "doesnotexist", "ÄBCD"] {
        assert_eq!(parse_room_id(text), None, "{text}");
    }
    assert_eq!(parse_room_id("09AF"), Some(0x09AF));
}

#[test]
fn room_code_from_uuid_upper_cases_the_first_four_digits() {
    assert_eq!(room_id_from_uuid("3fa85f64-5717-4562-b3fc-2c963f66afa6"), 0x3FA8);
    assert_eq!(format_room_id(room_id_from_uuid("0b1c2d3e-0000-4000-8000-000000000000")), "0B1C");
    let expected: String = "a9f0".to_uppercase();
    assert_eq!(format_room_id(room_id_from_uuid("a9f0ffff-ffff-4fff-bfff-ffffffffffff")), expected);
}

#[test]
fn unit_sizes_are_recognised_by_their_bits() {
    assert_eq!(UnitSize::from_f64_bits(0.33f64.to_bits()), Some(UnitSize::Cl33));
    assert_eq!(UnitSize::from_f64_bits(0.5f64.to_bits()), Some(UnitSize::Cl50));
    for other in [0.0f64, -0.0, 0.25, 0.330001, 0.5000001, 1.0, -0.5, f64::NAN, f64::INFINITY] {
        assert_eq!(UnitSize::from_f64_bits(other.to_bits()), None);
    }
    assert_eq!(f64::from_bits(UnitSize::Cl33.f64_bits()), 0.33);
    assert_eq!(f64::from_bits(UnitSize::Cl50.f64_bits()), 0.5);
    assert_eq!(UnitSize::Cl33.centiliters(), 33);
    assert_eq!(UnitSize::Cl50.centiliters(), 50);
}

#[test]
fn cleanup_removes_only_inactive_rooms() {
    let mut store = RoomStore::new();
    assert!(store.insert_room(1, UnitSize::Cl33, 0, 1_000));
    assert!(store.insert_room(2, UnitSize::Cl50, 0, 5_000));
    assert!(store.insert_room(3, UnitSize::Cl50, 0, 2_000));
    assert!(!store.insert_room(3, UnitSize::Cl33, 0, 9_000));
    assert_eq!(INACTIVITY_LIMIT_SECS, 48 * 3600);
    // At exactly the limit a room stays.
    assert_eq!(store.remove_inactive(1_000 + INACTIVITY_LIMIT_SECS), 0);
    assert_eq!(store.len(), 3);
    assert_eq!(store.remove_inactive(2_001 + INACTIVITY_LIMIT_SECS), 2);
    assert_eq!(store.len(), 1);
    assert!(store.contains_room(2));
    assert!(!store.contains_room(1));
    assert!(!store.contains_room(3));
    assert_eq!(store.remove_inactive(0), 0);
}

#[test]
fn activity_keeps_a_room_alive() {
    let mut store = RoomStore::new();
    assert!(store.insert_room(9, UnitSize::Cl33, 0, 0));
    assert!(store.insert_player(9, "Kim".to_string(), 100_000));
    assert_eq!(store.remove_inactive(100_000 + INACTIVITY_LIMIT_SECS), 0);
    assert_eq!(store.add_drink_to(9, &"Kim".to_string(), 33, 200_000), Some(33));
    assert_eq!(store.remove_inactive(200_000 + INACTIVITY_LIMIT_SECS), 0);
    assert_eq!(store.remove_inactive(200_001 + INACTIVITY_LIMIT_SECS), 1);
    assert!(!store.contains_room(9));
}

#[test]
fn store_primitives() {
    let mut store = RoomStore::new();
    assert!(!store.insert_player(4, "Lou".to_string(), 1));
    assert!(store.insert_room(4, UnitSize::Cl50, 7, 1));
    let row = store.room_row(4).unwrap();
    assert_eq!(row.room_id, "0004");
    assert_eq!(row.unit_size, UnitSize::Cl50);
    assert_eq!(row.unit_goal_bits, 7);
    assert!(store.room_row(5).is_none());
    assert!(store.insert_player(4, "Lou".to_string(), 2));
    assert!(!store.insert_player(4, "Lou".to_string(), 3));
    assert_eq!(store.player_score(4, &"Lou".to_string()).unwrap().drunk_cl, 0);
    assert!(store.player_score(4, &"Max".to_string()).is_none());
    assert_eq!(store.add_drink_to(4, &"Lou".to_string(), u64::MAX, 3), Some(u64::MAX));
    assert_eq!(store.add_drink_to(4, &"Lou".to_string(), 50, 3), Some(u64::MAX));
    assert_eq!(store.remove_drink_from(4, &"Lou".to_string(), 50, 4), Some(u64::MAX - 50));
    assert_eq!(store.remove_drink_from(4, &"Max".to_string(), 50, 4), None);
    assert!(store.players_by_score(5).is_empty());
    assert_eq!(store.players_by_score(4).len(), 1);
}
