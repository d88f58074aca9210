use roa_router::dispatch::Conflict;
use roa_router::middleware::{Middleware, Step};
use roa_router::path::{join_path, path_segments, standardize_path};
use roa_router::pattern::{Path, PathError, Segment};
use roa_router::router::Router;
use roa_router::status::{Status, StatusKind};
use roa_router::vars::{Namespace, Variables};

#[test]
fn standardize_collapses_separators() {
    assert_eq!(standardize_path("//a//b/"), "/a/b");
    assert_eq!(standardize_path("/"), "/");
    assert_eq!(standardize_path(""), "/");
    assert_eq!(standardize_path("a/b"), "/a/b");
    assert_eq!(standardize_path("///"), "/");
}

#[test]
fn standardize_is_idempotent() {
    for p in ["//a//b/", "/", "", "x", "/x/y/z/", "a//", "/é//ü/"] {
        let once = standardize_path(p);
        assert_eq!(standardize_path(&once), once);
    }
}

#[test]
fn segments_of_a_path() {
    assert_eq!(path_segments("//a//bc/"), vec!["a".to_string(), "bc".to_string()]);
    assert!(path_segments("/").is_empty());
}

#[test]
fn join_under_root() {
    assert_eq!(join_path("/api", "users/:id"), "/api/users/:id");
    assert_eq!(join_path("/", "/"), "/");
    assert_eq!(join_path("/a/", "/b/"), "/a/b");
}

#[test]
fn parse_static_and_dynamic() {
    match Path::parse("/a//b/").unwrap() {
        Path::Static(p) => assert_eq!(p, "/a/b"),
        Path::Dynamic(_) => panic!("expected a static path"),
    }
    match Path::parse("/items/:id").unwrap() {
        Path::Dynamic(d) => {
            assert_eq!(d.raw, "/items/:id");
            assert_eq!(d.segments.len(), 2);
            assert!(matches!(&d.segments[0], Segment::Literal(l) if l == "items"));
            assert!(matches!(&d.segments[1], Segment::Capture(n) if n == "id"));
        }
        Path::Static(_) => panic!("expected a dynamic path"),
    }
}

#[test]
fn parse_rejects_bad_captures() {
    match Path::parse("/a/:id/b/:id") {
        Err(PathError::DuplicateVariable(n)) => assert_eq!(n, "id"),
        _ => panic!("expected a duplicate variable"),
    }
    match Path::parse("/a/:") {
        Err(PathError::EmptyVariable(p)) => assert_eq!(p, "/a/:"),
        _ => panic!("expected an empty variable"),
    }
}

#[test]
fn captures_bind_names() {
    let d = match Path::parse("/items/:id/:part").unwrap() {
        Path::Dynamic(d) => d,
        Path::Static(_) => panic!("expected a dynamic path"),
    };
    let caps = d.captures(&path_segments("/items/42/head")).unwrap();
    assert_eq!(caps, vec![("id".to_string(), "42".to_string()), ("part".to_string(), "head".to_string())]);
    assert!(d.captures(&path_segments("/things/42/head")).is_none());
    assert!(d.captures(&path_segments("/items/42")).is_none());
}

#[test]
fn status_classification() {
    assert_eq!(StatusKind::infer(200), StatusKind::Successful);
    assert_eq!(StatusKind::infer(404), StatusKind::ClientError);
    assert_eq!(StatusKind::infer(503), StatusKind::ServerError);
    assert_eq!(StatusKind::infer(101), StatusKind::Informational);
    assert_eq!(StatusKind::infer(302), StatusKind::Redirection);
    assert_eq!(StatusKind::infer(99), StatusKind::Unknown);
    assert_eq!(StatusKind::infer(600), StatusKind::Unknown);
    assert!(Status::new(503, String::new(), false).need_throw());
    assert!(!Status::new(404, String::new(), false).need_throw());
    assert!(Status::new(700, String::new(), true).need_throw());
    let s = Status::internal("disk gone".to_string());
    assert_eq!(s.status_code, 500);
    assert_eq!(s.kind, StatusKind::ServerError);
    assert_eq!(s.data, "disk gone");
    assert!(!s.expose);
}

#[test]
fn onion_order() {
    let mut m: Middleware<&'static str> = Middleware::new();
    m.join("A");
    m.join("B");
    assert_eq!(
        m.trace(&vec![true, true]),
        vec![Step::Pre(0), Step::Pre(1), Step::Leaf, Step::Post(1), Step::Post(0)]
    );
    assert_eq!(m.trace(&vec![false, true]), vec![Step::Pre(0), Step::Post(0)]);
    assert_eq!(
        m.trace(&vec![true, false]),
        vec![Step::Pre(0), Step::Pre(1), Step::Post(1), Step::Post(0)]
    );
}

#[test]
fn chain_puts_outer_first() {
    let mut a: Middleware<u32> = Middleware::new();
    a.join(1);
    let mut b: Middleware<u32> = Middleware::new();
    b.join(2);
    b.join(3);
    assert_eq!(Middleware::chain(&a, &b).stages, vec![1, 2, 3]);
}

#[test]
fn variables_store_and_load() {
    let mut v = Variables::new();
    assert!(v.load(Namespace::Router, "id").is_none());
    v.store(Namespace::Router, "id".to_string(), "1".to_string());
    v.store(Namespace::Custom(7), "id".to_string(), "other".to_string());
    v.store(Namespace::Router, "id".to_string(), "2".to_string());
    assert_eq!(v.load(Namespace::Router, "id"), Some("2".to_string()));
    assert_eq!(v.load(Namespace::Custom(7), "id"), Some("other".to_string()));
    assert!(v.load(Namespace::Custom(8), "id").is_none());
    let err = v.try_param("name");
    assert!(err.is_none());
    let s = v.param("name").unwrap_err();
    assert_eq!(s.status_code, 400);
    assert!(s.expose);
    assert_eq!(s.data, "router variable `name` is required");
}

#[test]
fn static_path_resolves_to_its_endpoint() {
    let mut r: Router<u32> = Router::new("/");
    r.on("/a").unwrap().gate(1);
    r.on("/:x").unwrap().gate(2);
    r.on("/b/c").unwrap().gate(3);
    let d = r.handler().unwrap();
    let mut vars = Variables::new();
    assert_eq!(d.dispatch("/a", &mut vars).unwrap(), 0);
    assert!(vars.try_param("x").is_none());
    assert_eq!(d.dispatch("//b//c/", &mut vars).unwrap(), 2);
    assert_eq!(d.chain(2).stages, vec![3]);
    assert_eq!(d.dispatch("/z", &mut vars).unwrap(), 1);
    assert_eq!(vars.param("x").unwrap(), "z");
}

#[test]
fn dynamic_capture_is_published() {
    let mut r: Router<u32> = Router::new("/");
    r.on("/items/:id").unwrap();
    let d = r.handler().unwrap();
    let mut vars = Variables::new();
    assert_eq!(d.dispatch("/items/42", &mut vars).unwrap(), 0);
    assert_eq!(vars.param("id").unwrap(), "42");
    assert!(vars.try_param("missing").is_none());
}

#[test]
fn percent_encoded_path_is_decoded() {
    let mut r: Router<u32> = Router::new("/");
    r.on("/items/:id").unwrap();
    r.on("/a b").unwrap();
    let d = r.handler().unwrap();
    let mut vars = Variables::new();
    assert_eq!(d.dispatch("/items/%34%32", &mut vars).unwrap(), 0);
    assert_eq!(vars.param("id").unwrap(), "42");
    assert_eq!(d.dispatch("/a%20b", &mut vars).unwrap(), 1);
}

#[test]
fn undecodable_path_is_a_bad_request() {
    let mut r: Router<u32> = Router::new("/");
    r.on("/items/:id").unwrap();
    let d = r.handler().unwrap();
    let mut vars = Variables::new();
    let s = d.dispatch("/items/%FF", &mut vars).unwrap_err();
    assert_eq!(s.status_code, 400);
    assert_eq!(s.kind, StatusKind::ClientError);
    assert!(s.expose);
    assert_eq!(s.data, "path `/items/%FF` is not a valid utf-8 string");
    assert!(vars.try_param("id").is_none());
}

#[test]
fn unmatched_path_is_not_found() {
    let mut r: Router<u32> = Router::new("/");
    r.on("/items/:id").unwrap();
    let d = r.handler().unwrap();
    let mut vars = Variables::new();
    let s = d.dispatch("/items", &mut vars).unwrap_err();
    assert_eq!(s.status_code, 404);
    assert_eq!(s.kind, StatusKind::ClientError);
    assert!(!s.need_throw());
    assert_eq!(s.data, "");
}

#[test]
fn first_dynamic_match_wins() {
    let mut r: Router<u32> = Router::new("/");
    r.on("/a/:x").unwrap();
    r.on("/a/:y").unwrap();
    let d = r.handler().unwrap();
    let mut vars = Variables::new();
    assert_eq!(d.dispatch("/a/1", &mut vars).unwrap(), 0);
    assert_eq!(vars.param("x").unwrap(), "1");
    assert!(vars.try_param("y").is_none());
}

#[test]
fn duplicate_static_path_conflicts() {
    let mut r: Router<u32> = Router::new("/");
    r.on("/a").unwrap();
    r.route("/x").on("/y").unwrap();
    r.on("a/").unwrap();
    match r.handler() {
        Err(Conflict::Path(p)) => assert_eq!(p, "/a"),
        Ok(_) => panic!("expected a conflict"),
    }
}

#[test]
fn nested_routers_prepend_ancestor_middleware() {
    let mut r: Router<&'static str> = Router::new("/");
    r.on("/top").unwrap().gate("top");
    {
        let api = r.route("/api");
        api.on("/v").unwrap().gate("v");
        api.gate("auth");
    }
    r.gate("log");
    let d = r.handler().unwrap();
    let mut vars = Variables::new();
    let i = d.dispatch("/api/v", &mut vars).unwrap();
    assert_eq!(d.chain(i).stages, vec!["log", "auth", "v"]);
    let j = d.dispatch("/top", &mut vars).unwrap();
    assert_eq!(d.chain(j).stages, vec!["log", "top"]);
    assert_eq!(d.endpoint_count(), 2);
}

#[test]
fn malformed_route_leaves_router_unchanged() {
    let mut r: Router<u32> = Router::new("/");
    assert!(r.on("/x/:a/:a").is_err());
    assert!(r.nodes.is_empty());
}

/// Runs an endpoint's chain as an application would: each stage decides
/// whether to call its continuation; the leaf answers 200.
fn run(stages: &[&'static str], token_ok: bool, log: &mut Vec<String>) -> u16 {
    match stages.split_first() {
        None => {
            log.push("leaf".to_string());
            200
        }
        Some((&"auth", rest)) => {
            log.push("auth pre".to_string());
            let code = if token_ok { run(rest, token_ok, log) } else { 401 };
            log.push("auth post".to_string());
            code
        }
        Some((name, rest)) => {
            log.push(format!("{} pre", name));
            let code = run(rest, token_ok, log);
            log.push(format!("{} post", name));
            code
        }
    }
}

#[test]
fn end_to_end_log_auth_leaf() {
    let mut r: Router<&'static str> = Router::new("/");
    r.gate("log");
    r.route("/api").gate("auth").on("/users/:id").unwrap();
    let d = r.handler().unwrap();

    let mut vars = Variables::new();
    let i = d.dispatch("/api/users/7", &mut vars).unwrap();
    assert_eq!(vars.param("id").unwrap(), "7");
    let chain = d.chain(i).stages.clone();
    assert_eq!(chain, vec!["log", "auth"]);
    assert_eq!(d.chain(i).trace(&vec![true, true]).contains(&Step::Leaf), true);
    let mut log = Vec::new();
    assert_eq!(run(&chain, true, &mut log), 200);
    assert_eq!(log, vec!["log pre", "auth pre", "leaf", "auth post", "log post"]);

    let mut vars = Variables::new();
    let i = d.dispatch("/api/users/7", &mut vars).unwrap();
    assert!(!d.chain(i).trace(&vec![true, false]).contains(&Step::Leaf));
    let mut log = Vec::new();
    assert_eq!(run(&chain, false, &mut log), 401);
    assert_eq!(log, vec!["log pre", "auth pre", "auth post", "log post"]);
}
