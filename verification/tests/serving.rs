use webkernel::auth::CredentialStore;
use webkernel::context::{RequestBody, RequestContext, Response, ResponseBody};
use webkernel::counter::Counter;
use webkernel::dispatch::{build_app_table, serve, AppState};
use webkernel::route::Method;
use webkernel::table::RouteTable;

const KEY: &[u8] = b"secret";
const NOW: u64 = 1_700_000_000;

fn fresh_state() -> AppState {
    AppState { counter: Counter::new(1), users: CredentialStore::new() }
}

fn request(method: Method, path: &str) -> RequestContext {
    RequestContext::new(method, path.to_string())
}

fn table() -> RouteTable {
    build_app_table().expect("the application table builds without collisions")
}

fn body_text(r: &Response) -> &str {
    match &r.body {
        ResponseBody::Text(s) => s.as_str(),
        _ => panic!("expected a text body"),
    }
}

fn envelope(r: &Response) -> (u16, &str, &str) {
    match &r.body {
        ResponseBody::Envelope { status, message, data } => {
            (*status, message.as_str(), data.as_str())
        },
        _ => panic!("expected an envelope body"),
    }
}

#[test]
fn root_route_answers_hello_world() {
    let t = table();
    let mut state = fresh_state();
    let r = serve(&t, request(Method::Get, "/"), &mut state, KEY, NOW);
    assert_eq!(r.status, 200);
    assert_eq!(body_text(&r), "Hello World!");
}

#[test]
fn numeric_id_reaches_the_handler() {
    let t = table();
    let mut state = fresh_state();
    let r = serve(&t, request(Method::Get, "/7"), &mut state, KEY, NOW);
    assert_eq!(r.status, 200);
    assert_eq!(body_text(&r), "Hello from 7");
    let r2 = serve(&t, request(Method::Get, "/007"), &mut state, KEY, NOW);
    assert_eq!(body_text(&r2), "Hello from 7");
}

#[test]
fn non_numeric_id_short_circuits_without_side_effects() {
    let t = table();
    let mut state = fresh_state();
    state.counter.set(5);
    let r = serve(&t, request(Method::Get, "/abc"), &mut state, KEY, NOW);
    assert_eq!(r.status, 200);
    assert_eq!(body_text(&r), "Wrong input");
    assert_eq!(state.counter.get(), 5, "a short-circuit leaves the state untouched");
}

#[test]
fn wildcard_route_echoes_the_remainder() {
    let t = table();
    let mut state = fresh_state();
    let r = serve(&t, request(Method::Get, "/wildcard/a/b/c"), &mut state, KEY, NOW);
    assert_eq!(r.status, 200);
    assert_eq!(body_text(&r), "a/b/c");
    let r2 = serve(&t, request(Method::Get, "/wildcard/"), &mut state, KEY, NOW);
    assert_eq!(body_text(&r2), "");
}

#[test]
fn hello_route_sees_the_injected_identity() {
    let t = table();
    let mut state = fresh_state();
    let r = serve(&t, request(Method::Get, "/hello"), &mut state, KEY, NOW);
    assert_eq!(r.status, 200);
    assert_eq!(body_text(&r), "Hello");
}

#[test]
fn nested_and_merged_routes_are_served() {
    let t = table();
    let mut state = fresh_state();
    assert_eq!(
        body_text(&serve(&t, request(Method::Get, "/user/profile"), &mut state, KEY, NOW)),
        "Profile"
    );
    assert_eq!(
        body_text(&serve(&t, request(Method::Get, "/about"), &mut state, KEY, NOW)),
        "About"
    );
    assert_eq!(
        body_text(&serve(&t, request(Method::Get, "/nested/new"), &mut state, KEY, NOW)),
        "Okay"
    );
}

#[test]
fn unknown_route_falls_back_to_not_found() {
    let t = table();
    let mut state = fresh_state();
    let r = serve(&t, request(Method::Get, "/no/such/route"), &mut state, KEY, NOW);
    assert_eq!(r.status, 404);
    assert_eq!(body_text(&r), "404 | Not Found");
}

#[test]
fn full_counter_saturates_instead_of_overflowing() {
    let t = table();
    let mut state = fresh_state();
    let mut put = request(Method::Put, "/counter");
    put.body = RequestBody::CounterValue { value: u32::MAX };
    serve(&t, put, &mut state, KEY, NOW);
    let r = serve(&t, request(Method::Post, "/counter"), &mut state, KEY, NOW);
    assert_eq!(body_text(&r), "The count has been increased.");
    assert_eq!(state.counter.get(), u32::MAX);
}

#[test]
fn counter_routes_read_and_mutate_the_shared_counter() {
    let t = table();
    let mut state = fresh_state();

    let r = serve(&t, request(Method::Get, "/counter"), &mut state, KEY, NOW);
    assert!(matches!(r.body, ResponseBody::CounterEcho { value: 1 }));

    let r = serve(&t, request(Method::Post, "/counter"), &mut state, KEY, NOW);
    assert_eq!(body_text(&r), "The count has been increased.");
    assert_eq!(state.counter.get(), 2);

    let mut put = request(Method::Put, "/counter");
    put.body = RequestBody::CounterValue { value: 40 };
    let r = serve(&t, put, &mut state, KEY, NOW);
    assert!(matches!(r.body, ResponseBody::CounterEcho { value: 40 }));
    assert_eq!(state.counter.get(), 40);

    let r = serve(&t, request(Method::Delete, "/counter"), &mut state, KEY, NOW);
    assert_eq!(body_text(&r), "The counter has been deleted.");
    assert_eq!(state.counter.get(), 0);
}

#[test]
fn identity_route_echoes_the_parsed_body() {
    let t = table();
    let mut state = fresh_state();
    let mut req = request(Method::Post, "/identity");
    req.body = RequestBody::Identity { name: "John Doe".to_string(), age: 29 };
    let r = serve(&t, req, &mut state, KEY, NOW);
    assert_eq!(r.status, 200);
    match &r.body {
        ResponseBody::IdentityEcho { name, age } => {
            assert_eq!(name, "John Doe");
            assert_eq!(*age, 29);
        },
        _ => panic!("expected an identity echo"),
    }
}

#[test]
fn auth_flow_end_to_end() {
    let t = table();
    let mut state = fresh_state();

    let mut signup_req = request(Method::Post, "/auth/signup");
    signup_req.body = RequestBody::Credentials {
        user_name: "alice".to_string(),
        password: "secret".to_string(),
    };
    let r = serve(&t, signup_req, &mut state, KEY, NOW);
    assert_eq!(r.status, 200);
    assert_eq!(envelope(&r).0, 200);
    assert_eq!(envelope(&r).1, "User signed up");
    assert!(state.users.lookup("alice").is_some());

    let mut signin_req = request(Method::Post, "/auth/signin");
    signin_req.body = RequestBody::Credentials {
        user_name: "alice".to_string(),
        password: "secret".to_string(),
    };
    let r = serve(&t, signin_req, &mut state, KEY, NOW);
    let (status, message, token) = envelope(&r);
    assert_eq!(status, 200);
    assert_eq!(message, "Signed in");
    let token = token.to_string();

    let mut protected_req = request(Method::Get, "/auth/protected");
    protected_req
        .headers
        .push(("Authorization".to_string(), format!("Bearer {token}")));
    let r = serve(&t, protected_req, &mut state, KEY, NOW + 30);
    assert_eq!(r.status, 200);
    assert_eq!(body_text(&r), "Hello alice");

    let r = serve(&t, request(Method::Get, "/auth/protected"), &mut state, KEY, NOW);
    assert_eq!(r.status, 401);
    assert_eq!(body_text(&r), "Missing auth token");

    let mut expired_req = request(Method::Get, "/auth/protected");
    expired_req
        .headers
        .push(("Authorization".to_string(), format!("Bearer {token}")));
    let r = serve(&t, expired_req, &mut state, KEY, NOW + 3600);
    assert_eq!(r.status, 401);
    assert_eq!(body_text(&r), "Token expired");

    let mut garbage_req = request(Method::Get, "/auth/protected");
    garbage_req
        .headers
        .push(("Authorization".to_string(), "Bearer not-a-token".to_string()));
    let r = serve(&t, garbage_req, &mut state, KEY, NOW);
    assert_eq!(r.status, 401);
    assert_eq!(body_text(&r), "Invalid token");
}

#[test]
fn signin_error_envelopes() {
    let t = table();
    let mut state = fresh_state();

    let mut unknown = request(Method::Post, "/auth/signin");
    unknown.body = RequestBody::Credentials {
        user_name: "nobody".to_string(),
        password: "x".to_string(),
    };
    let r = serve(&t, unknown, &mut state, KEY, NOW);
    assert_eq!(envelope(&r).0, 404);
    assert_eq!(envelope(&r).1, "User does not exist");

    let mut signup_req = request(Method::Post, "/auth/signup");
    signup_req.body = RequestBody::Credentials {
        user_name: "alice".to_string(),
        password: "secret".to_string(),
    };
    serve(&t, signup_req, &mut state, KEY, NOW);

    let mut wrong = request(Method::Post, "/auth/signin");
    wrong.body = RequestBody::Credentials {
        user_name: "alice".to_string(),
        password: "nope".to_string(),
    };
    let r = serve(&t, wrong, &mut state, KEY, NOW);
    assert_eq!(envelope(&r).0, 401);
    assert_eq!(envelope(&r).1, "Invalid password");
}
