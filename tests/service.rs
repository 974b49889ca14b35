use hyper_microservice::arena::Arena;
use hyper_microservice::router::{parse_method, route, Method, Route};
use hyper_microservice::service::{handle, Response, Status, INDEX};
use hyper_microservice::store::UserRecord;
use hyper_microservice::text::{decimal_bytes, join_ids};

fn call(arena: &mut Arena, method: &str, path: &str) -> Response {
    handle(arena, parse_method(method.as_bytes()), path.as_bytes())
}

fn check(arena: &mut Arena, method: &str, path: &str, code: u16, body: &str) {
    let r = call(arena, method, path);
    assert_eq!(r.status.code(), code, "{} {}", method, path);
    assert_eq!(r.body, body.as_bytes().to_vec(), "{} {}", method, path);
}

#[test]
fn scenario_index_page() {
    let mut arena = Arena::new();
    let r = call(&mut arena, "GET", "/");
    assert_eq!(r.status, Status::Success);
    assert_eq!(r.status.code(), 200);
    assert_eq!(r.body, INDEX.as_bytes().to_vec());
    assert!(String::from_utf8(r.body).unwrap().contains("<h1>Microservices with Hyper</h1>"));
}

#[test]
fn scenario_empty_listing() {
    let mut arena = Arena::new();
    check(&mut arena, "GET", "/users", 200, "");
}

#[test]
fn scenario_post_twice() {
    let mut arena = Arena::new();
    check(&mut arena, "POST", "/user/", 200, "0");
    check(&mut arena, "POST", "/user/", 200, "1");
    check(&mut arena, "GET", "/users", 200, "0,1");
}

#[test]
fn scenario_get_present_and_absent() {
    let mut arena = Arena::new();
    check(&mut arena, "POST", "/user/", 200, "0");
    check(&mut arena, "POST", "/user/", 200, "1");
    check(&mut arena, "GET", "/user/0", 200, "{}");
    check(&mut arena, "GET", "/user/5", 404, "");
}

#[test]
fn scenario_delete_then_reuse() {
    let mut arena = Arena::new();
    check(&mut arena, "POST", "/user/", 200, "0");
    check(&mut arena, "POST", "/user/", 200, "1");
    check(&mut arena, "DELETE", "/user/0", 200, "");
    check(&mut arena, "GET", "/user/0", 404, "");
    check(&mut arena, "POST", "/user/", 200, "0");
}

#[test]
fn scenario_fallthrough_and_bad_request() {
    let mut arena = Arena::new();
    check(&mut arena, "PUT", "/user/abc", 404, "");
    check(&mut arena, "POST", "/user/7", 400, "");
    assert!(arena.enumerate().is_empty());
}

#[test]
fn crud_round_trip_over_paths() {
    let mut arena = Arena::new();
    check(&mut arena, "POST", "/user/", 200, "0");
    check(&mut arena, "GET", "/user/0", 200, "{}");
    check(&mut arena, "PUT", "/user/0", 200, "");
    check(&mut arena, "GET", "/user/0/", 200, "{}");
    check(&mut arena, "DELETE", "/user/0/", 200, "");
    check(&mut arena, "GET", "/user/0", 404, "");
    check(&mut arena, "PUT", "/user/0", 404, "");
    check(&mut arena, "DELETE", "/user/0", 404, "");
}

#[test]
fn method_not_allowed_leaves_arena_alone() {
    let mut arena = Arena::new();
    check(&mut arena, "POST", "/user/", 200, "0");
    check(&mut arena, "POST", "/user/", 200, "1");
    let before = arena.enumerate();
    for (method, path) in [
        ("POST", "/"),
        ("DELETE", "/index.html"),
        ("PUT", "/users"),
        ("POST", "/users/"),
        ("GET", "/user/"),
        ("PUT", "/user/"),
        ("DELETE", "/user/"),
        ("PATCH", "/user/0"),
        ("PATCH", "/user/"),
    ] {
        for _ in 0..2 {
            check(&mut arena, method, path, 405, "");
            assert_eq!(arena.enumerate(), before);
        }
    }
}

#[test]
fn users_path_is_the_collection_for_every_method() {
    let mut arena = Arena::new();
    for method in ["GET", "POST", "PUT", "DELETE", "HEAD", "get"] {
        for path in ["/users", "/users/"] {
            assert_eq!(route(path.as_bytes()), Route::Users);
            let r = call(&mut arena, method, path);
            let expected = if method == "GET" { 200 } else { 405 };
            assert_eq!(r.status.code(), expected, "{} {}", method, path);
        }
    }
    assert!(arena.enumerate().is_empty());
}

#[test]
fn index_paths() {
    assert_eq!(route(b"/"), Route::Index);
    assert_eq!(route(b"/index.htm"), Route::Index);
    assert_eq!(route(b"/index.html"), Route::Index);
    assert_eq!(route(b"/index"), Route::Unmatched);
    assert_eq!(route(b"/index.html/"), Route::Unmatched);
    assert_eq!(route(b"/index.htmll"), Route::Unmatched);
}

#[test]
fn user_paths() {
    assert_eq!(route(b"/user/"), Route::User(None));
    assert_eq!(route(b"/user/12"), Route::User(Some(12)));
    assert_eq!(route(b"/user/12/"), Route::User(Some(12)));
    assert_eq!(route(b"/user/007"), Route::User(Some(7)));
    assert_eq!(route(b"/user"), Route::Unmatched);
    assert_eq!(route(b"/user//"), Route::Unmatched);
    assert_eq!(route(b"/user/1a"), Route::Unmatched);
    assert_eq!(route(b"/user/12//"), Route::Unmatched);
    assert_eq!(route(b"/user/-1"), Route::Unmatched);
    assert_eq!(route(b"/userx/1"), Route::Unmatched);
    assert_eq!(route(b""), Route::Unmatched);
    assert_eq!(route(b"/usersx"), Route::Unmatched);
}

#[test]
fn user_id_overflow_falls_through() {
    let max = usize::MAX.to_string();
    assert_eq!(route(format!("/user/{}", max).as_bytes()), Route::User(Some(usize::MAX)));
    let over = format!("/user/{}0", max);
    assert_eq!(route(over.as_bytes()), Route::Unmatched);
    let mut arena = Arena::new();
    check(&mut arena, "POST", &over, 404, "");
    check(&mut arena, "GET", "/user/99999999999999999999999", 404, "");
}

#[test]
fn unmatched_paths_are_not_found() {
    let mut arena = Arena::new();
    check(&mut arena, "GET", "/nothing", 404, "");
    check(&mut arena, "POST", "/users/1", 404, "");
    check(&mut arena, "DELETE", "/", 405, "");
}

#[test]
fn methods_are_parsed_exactly() {
    assert_eq!(parse_method(b"GET"), Method::Get);
    assert_eq!(parse_method(b"POST"), Method::Post);
    assert_eq!(parse_method(b"PUT"), Method::Put);
    assert_eq!(parse_method(b"DELETE"), Method::Delete);
    assert_eq!(parse_method(b"get"), Method::Other);
    assert_eq!(parse_method(b"GETS"), Method::Other);
    assert_eq!(parse_method(b""), Method::Other);
}

#[test]
fn status_codes() {
    assert_eq!(Status::Success.code(), 200);
    assert_eq!(Status::BadRequest.code(), 400);
    assert_eq!(Status::NotFound.code(), 404);
    assert_eq!(Status::MethodNotAllowed.code(), 405);
}

#[test]
fn decimal_forms() {
    assert_eq!(decimal_bytes(0), b"0".to_vec());
    assert_eq!(decimal_bytes(7), b"7".to_vec());
    assert_eq!(decimal_bytes(10), b"10".to_vec());
    assert_eq!(decimal_bytes(4096), b"4096".to_vec());
    assert_eq!(decimal_bytes(usize::MAX), usize::MAX.to_string().into_bytes());
}

#[test]
fn joined_listing() {
    assert_eq!(join_ids(&vec![]), b"".to_vec());
    assert_eq!(join_ids(&vec![3]), b"3".to_vec());
    assert_eq!(join_ids(&vec![0, 12, 7]), b"0,12,7".to_vec());
}

#[test]
fn listing_follows_reuse() {
    let mut arena = Arena::new();
    for _ in 0..4 {
        arena.insert(UserRecord);
    }
    check(&mut arena, "DELETE", "/user/1", 200, "");
    check(&mut arena, "GET", "/users", 200, "0,2,3");
    check(&mut arena, "POST", "/user/", 200, "1");
    check(&mut arena, "GET", "/users/", 200, "0,1,2,3");
}
