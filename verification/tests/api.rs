use drink_rooms::handlers::{
    add_drink, create_room, create_room_with_id, get_room, health, health_detailed, join_room,
    undo_drink, ApiError, Reply,
};
use drink_rooms::models::{CreateRoomRequest, DrinkRequest, JoinRoomRequest, RoomState};
use drink_rooms::store::RoomStore;

const NOW: u64 = 1_700_000_000;

fn create_req(unit_size: f64, unit_goal: f64) -> CreateRoomRequest {
    CreateRoomRequest { unit_size_bits: unit_size.to_bits(), unit_goal_bits: unit_goal.to_bits() }
}

fn drink_req(unit_size: f64) -> DrinkRequest {
    DrinkRequest { unit_size_bits: unit_size.to_bits() }
}

fn join_req(name: &str) -> JoinRoomRequest {
    JoinRoomRequest { username: name.to_string() }
}

fn new_room(store: &mut RoomStore, unit_size: f64, unit_goal: f64) -> String {
    let reply = create_room(store, &create_req(unit_size, unit_goal), NOW);
    assert_eq!(reply.status, 201);
    reply.body.unwrap().room_id
}

fn room(reply: Reply<RoomState>) -> RoomState {
    assert_eq!(reply.status, 200);
    reply.body.unwrap()
}

#[test]
fn test_health() {
    let res = health();
    assert_eq!(res.status, 200);
    assert_eq!(res.body.unwrap(), "ok");
}

#[test]
fn test_health_detailed() {
    let res = health_detailed(true);
    assert_eq!(res.status, 200);
    let body = res.body.unwrap();
    assert_eq!(body.server, "ok");
    assert_eq!(body.database, "ok");
}

#[test]
fn test_create_and_get_room() {
    let mut store = RoomStore::new();
    let res = create_room(&mut store, &create_req(0.33, 10.0), NOW);
    assert_eq!(res.status, 201);
    let room_id = res.body.unwrap().room_id;

    let res = get_room(&store, &room_id);
    assert_eq!(res.status, 200);
    let room = res.body.unwrap();
    assert_eq!(room.room_id, room_id);
    assert_eq!(f64::from_bits(room.unit_size.f64_bits()), 0.33);
    assert_eq!(f64::from_bits(room.unit_goal_bits), 10.0);
    assert!(room.players.is_empty());
}

#[test]
fn test_create_room_invalid_unit_size() {
    let mut store = RoomStore::new();
    let res = create_room(&mut store, &create_req(0.25, 5.0), NOW);
    assert_eq!(res.status, 400);
}

#[test]
fn test_join_room() {
    let mut store = RoomStore::new();
    let room_id = new_room(&mut store, 0.5, 5.0);

    let res = join_room(&mut store, &room_id, &join_req("Alice"), NOW);
    assert_eq!(res.status, 201);
    let player = res.body.unwrap();
    assert_eq!(player.username, "Alice");
    assert_eq!(player.score.drunk_cl as f64 / player.score.unit.centiliters() as f64, 0.0);
}

#[test]
fn test_join_room_duplicate_username() {
    let mut store = RoomStore::new();
    let room_id = new_room(&mut store, 0.5, 5.0);

    join_room(&mut store, &room_id, &join_req("Bob"), NOW);

    let res = join_room(&mut store, &room_id, &join_req("Bob"), NOW);
    assert_eq!(res.status, 400);
}

#[test]
fn test_add_drink_updates_score() {
    let mut store = RoomStore::new();
    let room_id = new_room(&mut store, 0.33, 10.0);

    join_room(&mut store, &room_id, &join_req("Charlie"), NOW);

    // Add a 0.5 drink to a 0.33-unit room: delta = 0.5/0.33, about 1.515
    let res = add_drink(&mut store, &room_id, &"Charlie".to_string(), &drink_req(0.5), NOW);
    assert_eq!(res.status, 200);
    let player = res.body.unwrap();
    assert_eq!(player.username, "Charlie");
    let score = player.score.drunk_cl as f64 / player.score.unit.centiliters() as f64;
    assert!((score - (0.5f64 / 0.33f64)).abs() < 0.001);
}

#[test]
fn test_get_room_not_found() {
    let store = RoomStore::new();
    let res = get_room(&store, "doesnotexist");
    assert_eq!(res.status, 404);
}

#[test]
fn health_detailed_reports_unreachable_database() {
    let res = health_detailed(false);
    assert_eq!(res.status, 503);
    let body = res.body.unwrap();
    assert_eq!(body.server, "ok");
    assert_eq!(body.database, "error");
}

#[test]
fn new_room_code_is_four_upper_case_hex_digits() {
    let mut store = RoomStore::new();
    for _ in 0..20 {
        let res = create_room(&mut store, &create_req(0.5, 1.0), NOW);
        if res.status == 201 {
            let id = res.body.unwrap().room_id;
            assert_eq!(id.len(), 4);
            assert!(id.chars().all(|c| c.is_ascii_digit() || ('A'..='F').contains(&c)));
            assert!(drink_rooms::room_id::parse_room_id(&id).is_some());
        } else {
            assert_eq!(res.status, 500);
        }
    }
}

#[test]
fn create_room_with_taken_code_is_refused() {
    let mut store = RoomStore::new();
    let res = create_room_with_id(&mut store, &create_req(0.33, 3.0), 0x1A2B, NOW);
    assert_eq!(res.status, 201);
    assert_eq!(res.body.unwrap().room_id, "1A2B");
    let res = create_room_with_id(&mut store, &create_req(0.5, 3.0), 0x1A2B, NOW);
    assert_eq!(res.status, 500);
    assert_eq!(res.body.err(), Some(ApiError::RoomIdTaken));
    assert_eq!(store.len(), 1);
    let state = room(get_room(&store, "1A2B"));
    assert_eq!(f64::from_bits(state.unit_size.f64_bits()), 0.33);
}

#[test]
fn create_room_keeps_the_goal_bits() {
    let mut store = RoomStore::new();
    let res = create_room_with_id(&mut store, &create_req(0.5, -2.75), 0x00FF, NOW);
    assert_eq!(res.body.unwrap().room_id, "00FF");
    let state = room(get_room(&store, "00FF"));
    assert_eq!(f64::from_bits(state.unit_goal_bits), -2.75);
}

#[test]
fn lower_case_code_is_not_found() {
    let mut store = RoomStore::new();
    create_room_with_id(&mut store, &create_req(0.5, 3.0), 0xABCD, NOW);
    assert_eq!(get_room(&store, "ABCD").status, 200);
    let res = get_room(&store, "abcd");
    assert_eq!(res.status, 404);
    assert_eq!(res.body.err(), Some(ApiError::RoomNotFound));
}

#[test]
fn join_unknown_room_is_refused() {
    let mut store = RoomStore::new();
    let res = join_room(&mut store, "0000", &join_req("Dana"), NOW);
    assert_eq!(res.status, 404);
    assert_eq!(res.body.err(), Some(ApiError::RoomNotFound));
}

#[test]
fn duplicate_username_error_is_username_taken() {
    let mut store = RoomStore::new();
    create_room_with_id(&mut store, &create_req(0.5, 3.0), 7, NOW);
    join_room(&mut store, "0007", &join_req("Bob"), NOW);
    let res = join_room(&mut store, "0007", &join_req("Bob"), NOW);
    assert_eq!(res.body.err(), Some(ApiError::UsernameTaken));
    assert_eq!(room(get_room(&store, "0007")).players.len(), 1);
}

#[test]
fn same_name_may_join_two_rooms() {
    let mut store = RoomStore::new();
    create_room_with_id(&mut store, &create_req(0.5, 3.0), 1, NOW);
    create_room_with_id(&mut store, &create_req(0.5, 3.0), 2, NOW);
    assert_eq!(join_room(&mut store, "0001", &join_req("Eve"), NOW).status, 201);
    assert_eq!(join_room(&mut store, "0002", &join_req("Eve"), NOW).status, 201);
}

#[test]
fn drink_with_invalid_size_is_refused_first() {
    let mut store = RoomStore::new();
    let res = add_drink(&mut store, "0000", &"Nobody".to_string(), &drink_req(0.4), NOW);
    assert_eq!(res.status, 400);
    assert_eq!(res.body.err(), Some(ApiError::InvalidUnitSize));
    let res = undo_drink(&mut store, "0000", &"Nobody".to_string(), &drink_req(1.0), NOW);
    assert_eq!(res.status, 400);
    assert_eq!(res.body.err(), Some(ApiError::InvalidUnitSize));
}

#[test]
fn drink_for_unknown_room_or_player_is_not_found() {
    let mut store = RoomStore::new();
    create_room_with_id(&mut store, &create_req(0.5, 3.0), 0x0BEE, NOW);
    let res = add_drink(&mut store, "0BEF", &"Fay".to_string(), &drink_req(0.5), NOW);
    assert_eq!(res.body.err(), Some(ApiError::RoomNotFound));
    let res = add_drink(&mut store, "0BEE", &"Fay".to_string(), &drink_req(0.5), NOW);
    assert_eq!(res.status, 404);
    assert_eq!(res.body.err(), Some(ApiError::PlayerNotFound));
    let res = undo_drink(&mut store, "0BEE", &"Fay".to_string(), &drink_req(0.5), NOW);
    assert_eq!(res.status, 404);
    assert_eq!(res.body.err(), Some(ApiError::PlayerNotFound));
}

#[test]
fn drink_scores_in_room_units() {
    let mut store = RoomStore::new();
    create_room_with_id(&mut store, &create_req(0.5, 3.0), 0x0042, NOW);
    join_room(&mut store, "0042", &join_req("Gus"), NOW);
    let name = "Gus".to_string();
    let p = add_drink(&mut store, "0042", &name, &drink_req(0.5), NOW).body.unwrap();
    assert_eq!(p.score.drunk_cl, 50);
    assert_eq!(p.score.drunk_cl as f64 / p.score.unit.centiliters() as f64, 1.0);
    let p = add_drink(&mut store, "0042", &name, &drink_req(0.33), NOW).body.unwrap();
    assert_eq!(p.score.drunk_cl, 83);
    assert!((p.score.drunk_cl as f64 / p.score.unit.centiliters() as f64 - 1.66).abs() < 1e-9);
}

#[test]
fn undo_restores_the_score() {
    let mut store = RoomStore::new();
    create_room_with_id(&mut store, &create_req(0.33, 3.0), 0x0042, NOW);
    join_room(&mut store, "0042", &join_req("Hal"), NOW);
    let name = "Hal".to_string();
    add_drink(&mut store, "0042", &name, &drink_req(0.33), NOW);
    add_drink(&mut store, "0042", &name, &drink_req(0.5), NOW);
    let state = room(undo_drink(&mut store, "0042", &name, &drink_req(0.5), NOW));
    assert_eq!(state.players.len(), 1);
    assert_eq!(state.players[0].username, "Hal");
    assert_eq!(state.players[0].score.drunk_cl, 33);
    assert_eq!(state.room_id, "0042");
}

#[test]
fn undo_never_goes_below_zero() {
    let mut store = RoomStore::new();
    create_room_with_id(&mut store, &create_req(0.5, 3.0), 0x0042, NOW);
    join_room(&mut store, "0042", &join_req("Ivy"), NOW);
    let name = "Ivy".to_string();
    add_drink(&mut store, "0042", &name, &drink_req(0.33), NOW);
    let state = room(undo_drink(&mut store, "0042", &name, &drink_req(0.5), NOW));
    assert_eq!(state.players[0].score.drunk_cl, 0);
    let state = room(undo_drink(&mut store, "0042", &name, &drink_req(0.5), NOW));
    assert_eq!(state.players[0].score.drunk_cl, 0);
}

#[test]
fn room_lists_players_by_score_descending() {
    let mut store = RoomStore::new();
    create_room_with_id(&mut store, &create_req(0.33, 3.0), 0x00AA, NOW);
    for name in ["Ann", "Ben", "Cid", "Dot"] {
        join_room(&mut store, "00AA", &join_req(name), NOW);
    }
    let drink = |store: &mut RoomStore, who: &str, size: f64| {
        assert_eq!(add_drink(store, "00AA", &who.to_string(), &drink_req(size), NOW).status, 200);
    };
    drink(&mut store, "Ben", 0.33);
    drink(&mut store, "Cid", 0.5);
    drink(&mut store, "Cid", 0.5);
    drink(&mut store, "Dot", 0.33);
    let state = room(get_room(&store, "00AA"));
    let listed: Vec<(String, u64)> =
        state.players.iter().map(|p| (p.username.clone(), p.score.drunk_cl)).collect();
    assert_eq!(
        listed,
        vec![
            ("Cid".to_string(), 100),
            ("Ben".to_string(), 33),
            ("Dot".to_string(), 33),
            ("Ann".to_string(), 0),
        ]
    );
}

#[test]
fn error_messages_and_statuses() {
    let cases = [
        (ApiError::InvalidUnitSize, 400, "unit_size must be 0.33 or 0.5"),
        (ApiError::RoomNotFound, 404, "room not found"),
        (ApiError::PlayerNotFound, 404, "player not found"),
        (ApiError::UsernameTaken, 400, "username already taken in this room"),
        (ApiError::RoomIdTaken, 500, "room id already in use"),
    ];
    for (e, status, message) in cases {
        assert_eq!(e.status(), status);
        assert_eq!(e.message(), message);
    }
}
