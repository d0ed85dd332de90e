use ruma_directory::directory::{DeleteRoomAlias, DirectoryError, GetRoomAlias, PutRoomAlias};
use ruma_directory::store::AliasStore;

const DOMAIN: &str = "ruma.test";
const CARL: &str = "@carl:ruma.test";

/// A store where `alias` names `room_id`, bound by `owner`, as creating a room
/// with an alias does.
fn store_with_alias(alias: &str, room_id: &str, owner: &str) -> AliasStore {
    let mut store = AliasStore::new();
    PutRoomAlias
        .handle(&mut store, Some(alias), DOMAIN, Some(room_id), true, owner)
        .expect("binding a fresh alias succeeds");
    store
}

#[test]
fn get_room_alias() {
    let room_id = "!abc123:ruma.test";
    let store = store_with_alias("my_room", room_id, CARL);

    let response = GetRoomAlias.handle(&store, Some("my_room"), DOMAIN).expect("alias resolves");

    assert_eq!(response.room_id, room_id);
    assert!(!response.servers.is_empty());
}

#[test]
fn get_unknown_room_alias() {
    let store = store_with_alias("my_room", "!abc123:ruma.test", CARL);

    let error = GetRoomAlias.handle(&store, Some("no_room"), DOMAIN).err().unwrap();

    assert_eq!(error.status_code(), 404);
    assert_eq!(error.errcode(), "M_NOT_FOUND");
}

#[test]
fn delete_room_alias() {
    let mut store = store_with_alias("my_room", "!abc123:ruma.test", CARL);

    let delete_response = DeleteRoomAlias.handle(&mut store, Some("my_room"), DOMAIN, CARL);

    assert_eq!(delete_response, Ok(()));

    let error = GetRoomAlias.handle(&store, Some("my_room"), DOMAIN).err().unwrap();

    assert_eq!(error.status_code(), 404);
}

#[test]
fn delete_room_alias_from_different_user() {
    let mut store = store_with_alias("my_room", "!abc123:ruma.test", CARL);

    let error = DeleteRoomAlias
        .handle(&mut store, Some("my_room"), DOMAIN, "@henry:ruma.test")
        .err()
        .unwrap();

    assert_eq!(error.status_code(), 404);
}

#[test]
fn put_room_alias() {
    let mut store = AliasStore::new();
    let room_id = "!abc123:ruma.test";

    let response =
        PutRoomAlias.handle(&mut store, Some("my_room"), DOMAIN, Some(room_id), true, CARL);

    assert_eq!(response, Ok(()));

    let response = GetRoomAlias.handle(&store, Some("my_room"), DOMAIN).expect("alias resolves");

    assert_eq!(response.room_id, room_id);
    assert!(!response.servers.is_empty());
}

#[test]
fn put_room_alias_with_no_room() {
    let mut store = AliasStore::new();

    let error = PutRoomAlias
        .handle(&mut store, Some("my_room"), DOMAIN, Some("!nonexistent:ruma.test"), false, CARL)
        .err()
        .unwrap();

    assert_eq!(error, DirectoryError::RoomNotFound);
    assert_eq!(error.status_code(), 422);
}

#[test]
fn put_existing_room_alias() {
    let room_id = "!abc123:ruma.test";
    let mut store = store_with_alias("my_room", room_id, CARL);

    let error = PutRoomAlias
        .handle(&mut store, Some("my_room"), DOMAIN, Some(room_id), true, CARL)
        .err()
        .unwrap();

    assert_eq!(error.status_code(), 409);
    assert_eq!(error.errcode(), "IO_RUMA_ALIAS_TAKEN");
}
