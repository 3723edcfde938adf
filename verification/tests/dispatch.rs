//! Tests of the dispatch-resolution engine.

use httprouter::Method;
use httprouter::Outcome;
use httprouter::Params;
use httprouter::RegisterError;
use httprouter::Router;
use httprouter::synthesize;

fn router_with_home() -> Router {
    Router::default()
        .get("/home", 1)
        .unwrap()
        .post("/home", 2)
        .unwrap()
}

#[test]
fn test_named_parameter_invoke() {
    let router = Router::default().get("/hello/:user", 11).unwrap();
    match router.resolve(Method::Get, "/hello/sam") {
        Outcome::Invoke { handler, params } => {
            assert_eq!(handler, 11);
            assert_eq!(params.get("user"), Some("sam"));
            let pairs: Vec<(String, String)> = params.into_iter().collect();
            assert_eq!(pairs, vec![("user".to_string(), "sam".to_string())]);
        }
        _ => panic!("expected an exact match"),
    }
}

#[test]
fn test_trailing_slash_redirect_get() {
    let router = Router::default().get("/foo", 1).unwrap();
    match router.resolve(Method::Get, "/foo/") {
        Outcome::Redirect { location, status } => {
            assert_eq!(location, "/foo");
            assert_eq!(status, 301);
        }
        _ => panic!("expected a trailing-slash redirect"),
    }
}

#[test]
fn test_trailing_slash_redirect_non_get_status() {
    let router = Router::default().post("/foo", 1).unwrap();
    match router.resolve(Method::Post, "/foo/") {
        Outcome::Redirect { location, status } => {
            assert_eq!(location, "/foo");
            assert_eq!(status, 308);
        }
        _ => panic!("expected a trailing-slash redirect"),
    }
}

#[test]
fn test_trailing_slash_redirect_appends() {
    let router = Router::default().get("/bar/", 1).unwrap();
    match router.resolve(Method::Get, "/bar") {
        Outcome::Redirect { location, status } => {
            assert_eq!(location, "/bar/");
            assert_eq!(status, 301);
        }
        _ => panic!("expected a trailing-slash redirect"),
    }
}

#[test]
fn test_fixed_path_redirect_case_insensitive() {
    let router = Router::default().get("/users", 1).unwrap();
    match router.resolve(Method::Get, "/..//Users/") {
        Outcome::Redirect { location, status } => {
            assert_eq!(location, "/users");
            assert_eq!(status, 301);
        }
        _ => panic!("expected a fixed-path redirect"),
    }
}

#[test]
fn test_method_not_allowed() {
    let router = router_with_home();
    match router.resolve(Method::Put, "/home") {
        Outcome::MethodNotAllowed { allow } => {
            assert_eq!(allow, vec!["GET", "POST", "OPTIONS"]);
        }
        _ => panic!("expected a 405 outcome"),
    }
}

#[test]
fn test_method_not_allowed_synthesized_status() {
    let router = router_with_home();
    let outcome = router.resolve(Method::Put, "/home");
    let response = synthesize(&outcome).expect("a 405 is synthesized");
    assert_eq!(response.status, 405);
    assert_eq!(response.allow.as_deref(), Some("GET, POST, OPTIONS"));
    assert_eq!(response.location, None);
}

#[test]
fn test_auto_options() {
    let router = router_with_home();
    match router.resolve(Method::Options, "/home") {
        Outcome::AutoOptions { allow } => {
            assert_eq!(allow, vec!["GET", "POST", "OPTIONS"]);
        }
        _ => panic!("expected an automatic OPTIONS outcome"),
    }
}

#[test]
fn test_auto_options_allow_header() {
    let router = router_with_home();
    let outcome = router.resolve(Method::Options, "/home");
    let response = synthesize(&outcome).expect("an OPTIONS reply is synthesized");
    assert_eq!(response.status, 200);
    assert_eq!(response.allow.as_deref(), Some("GET, POST, OPTIONS"));
    assert_eq!(response.location, None);
}

#[test]
fn test_global_options_delegation() {
    let router = router_with_home().global_options(9);
    match router.resolve(Method::Options, "/home") {
        Outcome::Invoke { handler, params } => {
            assert_eq!(handler, 9);
            assert_eq!(params.iter().count(), 0);
        }
        _ => panic!("expected delegation to the global OPTIONS handler"),
    }
}

#[test]
fn test_method_not_allowed_delegation() {
    let router = router_with_home().method_not_allowed(4);
    match router.resolve(Method::Delete, "/home") {
        Outcome::Invoke { handler, .. } => assert_eq!(handler, 4),
        _ => panic!("expected delegation to the 405 handler"),
    }
}

#[test]
fn test_not_found_outcome() {
    let router = router_with_home();
    match router.resolve(Method::Get, "/missing") {
        Outcome::NotFound => {}
        _ => panic!("expected a not-found outcome"),
    }
    let response = synthesize(&router.resolve(Method::Get, "/missing")).unwrap();
    assert_eq!(response.status, 404);
    assert_eq!(response.location, None);
    assert_eq!(response.allow, None);
}

#[test]
fn test_not_found_delegation() {
    let router = router_with_home().not_found(7);
    match router.resolve(Method::Get, "/missing") {
        Outcome::Invoke { handler, .. } => assert_eq!(handler, 7),
        _ => panic!("expected delegation to the not-found handler"),
    }
}

#[test]
fn test_connect_never_redirects() {
    let router = Router::default().handle("/foo", Method::Connect, 1).unwrap();
    match router.resolve(Method::Connect, "/foo/") {
        Outcome::NotFound => {}
        other => panic!("expected no redirect for CONNECT, got {:?}", outcome_kind(&other)),
    }
}

#[test]
fn test_root_path_never_redirects() {
    let router = Router::default().get("/foo", 1).unwrap();
    match router.resolve(Method::Get, "/") {
        Outcome::NotFound => {}
        other => panic!("expected no redirect for the root, got {:?}", outcome_kind(&other)),
    }
}

fn outcome_kind(o: &Outcome) -> &'static str {
    match o {
        Outcome::Invoke { .. } => "Invoke",
        Outcome::Redirect { .. } => "Redirect",
        Outcome::AutoOptions { .. } => "AutoOptions",
        Outcome::MethodNotAllowed { .. } => "MethodNotAllowed",
        Outcome::NotFound => "NotFound",
    }
}

#[test]
fn test_allowed_for_path() {
    let router = router_with_home().put("/other", 3).unwrap();
    let allowed = router.allowed("/home");
    assert!(allowed.contains(&"GET".to_string()));
    assert!(allowed.contains(&"POST".to_string()));
    assert!(allowed.contains(&"OPTIONS".to_string()));
    assert!(!allowed.contains(&"PUT".to_string()));
    assert_eq!(allowed.len(), 3);
    assert!(router.allowed("/unknown").is_empty());
}

#[test]
fn test_allowed_server_wide() {
    let router = router_with_home()
        .options("/meta", 5)
        .unwrap()
        .delete("/home", 6)
        .unwrap();
    let allowed = router.allowed("*");
    assert_eq!(allowed, vec!["GET", "POST", "DELETE", "OPTIONS"]);
}

#[test]
fn test_register_not_rooted() {
    match Router::default().get("foo", 1) {
        Err(RegisterError::NotRooted) => {}
        _ => panic!("expected rejection of a pattern without a leading slash"),
    }
}

#[test]
fn test_register_conflict() {
    let router = Router::default().get("/home", 1).unwrap();
    match router.get("/home", 2) {
        Err(RegisterError::Conflict { with }) => assert_eq!(with, "/home"),
        _ => panic!("expected a route conflict"),
    }
}

#[test]
fn test_register_too_many_params() {
    match Router::default().get("/:a:b", 1) {
        Err(RegisterError::TooManyParams) => {}
        _ => panic!("expected rejection of a doubled parameter"),
    }
}

#[test]
fn test_register_unnamed_param() {
    match Router::default().get("/:", 1) {
        Err(RegisterError::UnnamedParam) => {}
        _ => panic!("expected rejection of a nameless parameter"),
    }
}

#[test]
fn test_register_invalid_catch_all() {
    match Router::default().get("/*files/nope", 1) {
        Err(RegisterError::InvalidCatchAll) => {}
        _ => panic!("expected rejection of an inner catch-all"),
    }
}

#[test]
fn test_catch_all_match() {
    let router = Router::default().get("/src/*filepath", 21).unwrap();
    match router.resolve(Method::Get, "/src/some/dir/file.txt") {
        Outcome::Invoke { handler, params } => {
            assert_eq!(handler, 21);
            assert_eq!(params.get("filepath"), Some("/some/dir/file.txt"));
        }
        _ => panic!("expected a catch-all match"),
    }
}

#[test]
fn test_params_first_match_wins() {
    let pairs = vec![
        ("k".to_string(), "first".to_string()),
        ("k".to_string(), "second".to_string()),
        ("other".to_string(), "x".to_string()),
    ];
    let params = Params::from_pairs(pairs);
    assert_eq!(params.get("k"), Some("first"));
    assert_eq!(params.get("other"), Some("x"));
    assert_eq!(params.get("missing"), None);
}

#[test]
fn test_params_iterators() {
    let pairs = vec![
        ("a".to_string(), "1".to_string()),
        ("b".to_string(), "2".to_string()),
    ];
    let mut params = Params::from_pairs(pairs.clone());
    let seen: Vec<(String, String)> = params.iter().cloned().collect();
    assert_eq!(seen, pairs);
    for (_, v) in params.iter_mut() {
        v.push('!');
    }
    assert_eq!(params.get("a"), Some("1!"));
    let owned: Vec<(String, String)> = params.into_iter().collect();
    assert_eq!(owned[1], ("b".to_string(), "2!".to_string()));
}

#[test]
fn test_method_names() {
    assert_eq!(Method::Get.name(), "GET");
    assert_eq!(Method::Connect.name(), "CONNECT");
    assert_eq!(Method::Options.name(), "OPTIONS");
}

#[test]
fn test_invoke_after_options_disabled_paths() {
    // An OPTIONS request with no other method matching falls through to
    // the not-found fallback.
    let router = router_with_home();
    match router.resolve(Method::Options, "/missing") {
        Outcome::NotFound => {}
        _ => panic!("expected a not-found outcome for OPTIONS on an unknown path"),
    }
}

#[test]
fn test_synthesize_invoke_is_deferred() {
    let router = router_with_home();
    let outcome = router.resolve(Method::Get, "/home");
    assert!(synthesize(&outcome).is_none());
}

#[test]
fn test_fixed_path_skipped_for_wildcard_trees() {
    // A tree mixing a literal and a parameter route at one position is
    // outside the matcher's case-insensitive recovery: the engine must
    // answer without attempting it.
    let router = Router::default()
        .get("/foo", 1)
        .unwrap()
        .get("/:bar", 2)
        .unwrap();
    match router.resolve(Method::Get, "/x/y") {
        Outcome::NotFound => {}
        other => panic!("expected a not-found outcome, got {:?}", outcome_kind(&other)),
    }
}

#[test]
fn test_fixed_path_redirect_with_param_route() {
    // A tree whose wildcard routes never clash with a literal at the same
    // position keeps case-insensitive recovery.
    let router = Router::default().get("/hello/:user", 1).unwrap();
    match router.resolve(Method::Get, "/HELLO/sam") {
        Outcome::Redirect { location, status } => {
            assert_eq!(location, "/hello/sam");
            assert_eq!(status, 301);
        }
        other => panic!("expected a fixed-path redirect, got {:?}", outcome_kind(&other)),
    }
}

#[test]
fn test_fixed_path_redirect_mixed_positions_apart() {
    // A literal route and a wildcard route at different positions do not
    // mix either.
    let router = Router::default()
        .get("/status", 1)
        .unwrap()
        .get("/users/:id", 2)
        .unwrap();
    match router.resolve(Method::Get, "/Users/7/") {
        Outcome::Redirect { location, status } => {
            assert_eq!(location, "/users/7");
            assert_eq!(status, 301);
        }
        other => panic!("expected a fixed-path redirect, got {:?}", outcome_kind(&other)),
    }
}

#[test]
fn test_trailing_slash_redirect_with_params() {
    // Trailing-slash recovery is independent of the fixed-path gating.
    let router = Router::default().get("/hello/:user", 1).unwrap();
    match router.resolve(Method::Get, "/hello/sam/") {
        Outcome::Redirect { location, status } => {
            assert_eq!(location, "/hello/sam");
            assert_eq!(status, 301);
        }
        _ => panic!("expected a trailing-slash redirect"),
    }
}

#[test]
fn test_resolve_unknown_method_lists_allowed() {
    let router = router_with_home();
    match router.resolve_unknown_method("/home") {
        Outcome::MethodNotAllowed { allow } => {
            assert_eq!(allow, vec!["GET", "POST", "OPTIONS"]);
        }
        _ => panic!("expected a 405 outcome"),
    }
    match router.resolve_unknown_method("/missing") {
        Outcome::NotFound => {}
        _ => panic!("expected a not-found outcome"),
    }
}

#[test]
fn test_registration_rejected_when_matcher_refuses() {
    // A success-or-error report follows the matcher's own decision: a route
    // it refused is not registered, and later lookups still see the rest.
    let router = Router::default().get("/home", 1).unwrap();
    let router = match router.get("/home", 2) {
        Err(RegisterError::Conflict { .. }) => Router::default().get("/home", 1).unwrap(),
        _ => panic!("expected a route conflict"),
    };
    match router.resolve(Method::Get, "/home") {
        Outcome::Invoke { handler, .. } => assert_eq!(handler, 1),
        _ => panic!("expected the surviving registration to match"),
    }
}

#[test]
fn test_extension_method_registration_and_dispatch() {
    let router = Router::default()
        .handle("/cache", Method::Extension("PURGE".to_string()), 31)
        .unwrap()
        .get("/cache", 32)
        .unwrap();
    match router.resolve(Method::Extension("PURGE".to_string()), "/cache") {
        Outcome::Invoke { handler, .. } => assert_eq!(handler, 31),
        other => panic!("expected the extension route to match, got {:?}", outcome_kind(&other)),
    }
    let allowed = router.allowed("/cache");
    assert!(allowed.contains(&"PURGE".to_string()));
    assert!(allowed.contains(&"GET".to_string()));
    assert!(allowed.contains(&"OPTIONS".to_string()));
}

#[test]
fn test_extension_method_not_allowed() {
    let router = router_with_home();
    match router.resolve(Method::Extension("PURGE".to_string()), "/home") {
        Outcome::MethodNotAllowed { allow } => {
            assert_eq!(allow, vec!["GET", "POST", "OPTIONS"]);
        }
        _ => panic!("expected a 405 outcome for an extension method"),
    }
}

#[test]
fn test_method_is_its_wire_name() {
    // A method is identified by its name: an extension method spelling a
    // standard verb registers in that verb's table.
    let router = Router::default()
        .get("/a", 1)
        .unwrap()
        .handle("/b", Method::Extension("GET".to_string()), 2)
        .unwrap();
    match router.resolve(Method::Get, "/b") {
        Outcome::Invoke { handler, .. } => assert_eq!(handler, 2),
        other => panic!("expected a match in the GET table, got {:?}", outcome_kind(&other)),
    }
    assert_eq!(Method::Extension("PURGE".to_string()).name(), "PURGE");
}
