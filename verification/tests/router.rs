use webkernel::route::{parse_pattern, Method, RouteError};
use webkernel::table::{Handler, Mw, RouteTable};

fn register(t: &mut RouteTable, method: Method, template: &str, handler: Handler) {
    let p = parse_pattern(template).expect("pattern parses");
    t.register(method, p, handler, vec![Mw::Global]).expect("registers");
}

#[test]
fn literal_only_pattern_captures_nothing() {
    let mut t = RouteTable::new();
    register(&mut t, Method::Get, "/users/profile", Handler::Profile);
    let m = t.resolve(Method::Get, "/users/profile").expect("resolves");
    assert_eq!(m.params.len(), 0);
    assert!(m.wildcard.is_none());
}

#[test]
fn named_segment_is_extracted_unmodified() {
    let mut t = RouteTable::new();
    register(&mut t, Method::Get, "/users/{id}", Handler::CallWithId);
    let m = t.resolve(Method::Get, "/users/00x7a").expect("resolves");
    assert_eq!(m.params.len(), 1);
    assert_eq!(m.params[0].0, "id");
    assert_eq!(m.params[0].1, "00x7a");
    assert!(m.wildcard.is_none());
}

#[test]
fn wildcard_captures_joined_remainder() {
    let mut t = RouteTable::new();
    register(&mut t, Method::Get, "/wildcard/{*rest}", Handler::WildcardEcho);
    let m = t.resolve(Method::Get, "/wildcard/a/b/c").expect("resolves");
    assert_eq!(m.wildcard.as_deref(), Some("a/b/c"));
}

#[test]
fn wildcard_with_trailing_slash_captures_empty_remainder() {
    let mut t = RouteTable::new();
    register(&mut t, Method::Get, "/wildcard/{*rest}", Handler::WildcardEcho);
    let m = t.resolve(Method::Get, "/wildcard/").expect("resolves");
    assert_eq!(m.wildcard.as_deref(), Some(""));
}

#[test]
fn literal_route_wins_over_parameterized_route() {
    let mut t = RouteTable::new();
    register(&mut t, Method::Get, "/users/{id}", Handler::CallWithId);
    register(&mut t, Method::Get, "/users/admin", Handler::Profile);
    let m = t.resolve(Method::Get, "/users/admin").expect("resolves");
    assert_eq!(m.index, 1, "the literal route, registered second, wins");
    assert_eq!(m.params.len(), 0);
    let m2 = t.resolve(Method::Get, "/users/42").expect("resolves");
    assert_eq!(m2.index, 0);
    assert_eq!(m2.params[0].1, "42");
}

#[test]
fn parameterized_route_wins_over_wildcard_route() {
    let mut t = RouteTable::new();
    register(&mut t, Method::Get, "/{*rest}", Handler::WildcardEcho);
    register(&mut t, Method::Get, "/{id}", Handler::CallWithId);
    let m = t.resolve(Method::Get, "/7").expect("resolves");
    assert_eq!(m.index, 1);
}

#[test]
fn duplicate_registration_is_rejected() {
    let mut t = RouteTable::new();
    register(&mut t, Method::Get, "/users/{id}", Handler::CallWithId);
    let p = parse_pattern("/users/{other}").expect("pattern parses");
    let r = t.register(Method::Get, p, Handler::CallWithId, vec![]);
    assert_eq!(r, Err(RouteError::DuplicateRoute));
    let p2 = parse_pattern("/users/{id}").expect("pattern parses");
    let r2 = t.register(Method::Post, p2, Handler::CallWithId, vec![]);
    assert!(r2.is_ok(), "same pattern under another method is fine");
}

#[test]
fn unmatched_path_resolves_to_none() {
    let mut t = RouteTable::new();
    register(&mut t, Method::Get, "/users/profile", Handler::Profile);
    assert!(t.resolve(Method::Get, "/nothing/here").is_none());
    assert!(t.resolve(Method::Post, "/users/profile").is_none());
}

#[test]
fn nest_mounts_sub_table_under_prefix() {
    let mut t = RouteTable::new();
    let mut sub = RouteTable::new();
    register(&mut sub, Method::Get, "/profile", Handler::Profile);
    let prefix = parse_pattern("/user").expect("pattern parses");
    t.nest(prefix, sub).expect("nest succeeds");
    assert!(t.resolve(Method::Get, "/user/profile").is_some());
    assert!(t.resolve(Method::Get, "/profile").is_none());
}

#[test]
fn merge_unions_tables_and_rejects_collisions() {
    let mut t = RouteTable::new();
    register(&mut t, Method::Get, "/about", Handler::About);
    let mut other = RouteTable::new();
    register(&mut other, Method::Get, "/profile", Handler::Profile);
    t.merge(other).expect("merge succeeds");
    assert!(t.resolve(Method::Get, "/about").is_some());
    assert!(t.resolve(Method::Get, "/profile").is_some());

    let mut colliding = RouteTable::new();
    register(&mut colliding, Method::Get, "/about", Handler::About);
    let r = t.merge(colliding);
    assert_eq!(r, Err(RouteError::DuplicateRoute));
}

#[test]
fn pattern_parse_rejects_bad_templates() {
    assert_eq!(parse_pattern("no-slash").unwrap_err(), RouteError::BadPattern);
    assert_eq!(parse_pattern("").unwrap_err(), RouteError::BadPattern);
    assert_eq!(
        parse_pattern("/a/{*rest}/b").unwrap_err(),
        RouteError::BadPattern,
        "a wildcard must be the final segment"
    );
    assert!(parse_pattern("/a/{*rest}").is_ok());
}
