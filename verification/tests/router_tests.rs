use person_service::router::handle_request;
use person_service::router::Method;
use person_service::store::PersonStore;

fn get(store: &mut PersonStore, path: &str) -> (u16, Vec<u8>) {
    let r = handle_request(store, Method::Get, &path.as_bytes().to_vec(), &Vec::new());
    (r.status, r.body)
}

fn send(store: &mut PersonStore, m: Method, path: &str, body: &str) -> (u16, Vec<u8>) {
    let r = handle_request(store, m, &path.as_bytes().to_vec(), &body.as_bytes().to_vec());
    (r.status, r.body)
}

#[test]
fn get_root_greets() {
    let mut s = PersonStore::seeded();
    assert_eq!(get(&mut s, "/"), (200, b"Hello World!".to_vec()));
}

#[test]
fn get_all_lists_the_seed() {
    let mut s = PersonStore::seeded();
    let (status, body) = get(&mut s, "/all");
    assert_eq!(status, 200);
    assert_eq!(
        body,
        br#"{"list":[{"id":0,"name":"Jim"},{"id":1,"name":"Joe"}]}"#.to_vec()
    );
}

#[test]
fn get_person_hit_returns_json() {
    let mut s = PersonStore::seeded();
    assert_eq!(get(&mut s, "/person/0"), (200, br#"{"id":0,"name":"Jim"}"#.to_vec()));
}

#[test]
fn get_person_miss_is_not_found() {
    let mut s = PersonStore::seeded();
    assert_eq!(get(&mut s, "/person/9"), (404, b"Person id : 9 Not Found".to_vec()));
}

#[test]
fn post_add_then_get_round_trip() {
    let mut s = PersonStore::seeded();
    let (status, body) = send(&mut s, Method::Post, "/add", r#"{"name":"Sam"}"#);
    assert_eq!(status, 200);
    assert_eq!(body, b"New Person added!".to_vec());
    assert_eq!(get(&mut s, "/person/2"), (200, br#"{"id":2,"name":"Sam"}"#.to_vec()));
}

#[test]
fn post_add_with_bad_body_is_client_error() {
    let mut s = PersonStore::seeded();
    let before = get(&mut s, "/all");
    let (status, body) = send(&mut s, Method::Post, "/add", "{}");
    assert_eq!(status, 400);
    assert_eq!(body, b"400 | Bad Request!".to_vec());
    assert_eq!(get(&mut s, "/all"), before);
}

#[test]
fn delete_hit_confirms_and_removes() {
    let mut s = PersonStore::seeded();
    assert_eq!(
        send(&mut s, Method::Delete, "/delete/0", ""),
        (200, b"Person id : 0 removed".to_vec())
    );
    assert_eq!(get(&mut s, "/person/0"), (404, b"Person id : 0 Not Found".to_vec()));
}

#[test]
fn delete_miss_is_not_found() {
    let mut s = PersonStore::seeded();
    assert_eq!(
        send(&mut s, Method::Delete, "/delete/7", ""),
        (404, b"Person id : 7 Not Found".to_vec())
    );
}

#[test]
fn put_update_keeps_id_and_changes_name() {
    let mut s = PersonStore::seeded();
    assert_eq!(
        send(&mut s, Method::Put, "/update/1", r#"{"name":"Joline"}"#),
        (200, b"Person id : 1 updated".to_vec())
    );
    assert_eq!(get(&mut s, "/person/1"), (200, br#"{"id":1,"name":"Joline"}"#.to_vec()));
}

#[test]
fn put_update_miss_uses_lower_case_body() {
    let mut s = PersonStore::seeded();
    assert_eq!(
        send(&mut s, Method::Put, "/update/9", r#"{"name":"Y"}"#),
        (404, b"Person id : 9 not found".to_vec())
    );
}

#[test]
fn non_numeric_id_is_client_error() {
    let mut s = PersonStore::seeded();
    assert_eq!(get(&mut s, "/person/abc").0, 400);
    assert_eq!(get(&mut s, "/person/").0, 400);
    assert_eq!(send(&mut s, Method::Delete, "/delete/x", "").0, 400);
    assert_eq!(send(&mut s, Method::Put, "/update/x", r#"{"name":"Y"}"#).0, 400);
}

#[test]
fn overlong_id_is_client_error() {
    let mut s = PersonStore::seeded();
    assert_eq!(get(&mut s, "/person/18446744073709551616").0, 400);
    assert_eq!(
        get(&mut s, "/person/18446744073709551615"),
        (404, b"Person id : 18446744073709551615 Not Found".to_vec())
    );
}

#[test]
fn unmatched_routes_fall_through() {
    let mut s = PersonStore::seeded();
    assert_eq!(get(&mut s, "/nope"), (404, b"404 | Not Found!".to_vec()));
    assert_eq!(
        send(&mut s, Method::Post, "/person/1", ""),
        (404, b"404 | Not Found!".to_vec())
    );
    assert_eq!(
        send(&mut s, Method::Other, "/all", ""),
        (404, b"404 | Not Found!".to_vec())
    );
}

#[test]
fn trailing_path_segments_are_ignored() {
    let mut s = PersonStore::seeded();
    assert_eq!(get(&mut s, "/person/1/extra"), (200, br#"{"id":1,"name":"Joe"}"#.to_vec()));
}

#[test]
fn repeated_get_all_is_identical() {
    let mut s = PersonStore::seeded();
    send(&mut s, Method::Post, "/add", r#"{"name":"Sam"}"#);
    let first = get(&mut s, "/all");
    let second = get(&mut s, "/all");
    assert_eq!(first, second);
}

#[test]
fn seed_add_delete_scenario_through_routes() {
    let mut s = PersonStore::seeded();
    send(&mut s, Method::Post, "/add", r#"{"name":"Sam"}"#);
    assert_eq!(
        send(&mut s, Method::Delete, "/delete/0", ""),
        (200, b"Person id : 0 removed".to_vec())
    );
    assert_eq!(
        get(&mut s, "/all"),
        (200, br#"{"list":[{"id":1,"name":"Joe"},{"id":2,"name":"Sam"}]}"#.to_vec())
    );
    assert_eq!(get(&mut s, "/person/0"), (404, b"Person id : 0 Not Found".to_vec()));
}

#[test]
fn body_with_whitespace_and_escapes_is_accepted() {
    let mut s = PersonStore::seeded();
    let (status, _) = send(&mut s, Method::Post, "/add", " { \"name\" : \"a\\\"b\\\\c\\nd\" } ");
    assert_eq!(status, 200);
    let found = s.find_by_id(2).unwrap();
    assert_eq!(found.name, b"a\"b\\c\nd".to_vec());
}
