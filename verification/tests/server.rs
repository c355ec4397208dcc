use std::sync::atomic::{AtomicU64, Ordering};

use mttp::http::protocol::{parse_request, write_response};
use mttp::http::{HttpRequest, HttpResponse, Method, StatusCode};
use mttp::server::default_handlers;
use mttp::server::{build_dynamic_routes, match_route, router, MiddlewareResult, Route, RouteMatch};

fn get_request(path: &str) -> HttpRequest {
    let raw = format!("GET {} HTTP/1.1\r\n\r\n", path);
    parse_request(raw.as_bytes()).unwrap()
}

#[test]
fn test_route_template_matching_and_captures() {
    let routes = build_dynamic_routes(vec![("/a/:x/b".to_string(), Method::Get)]);
    assert!(matches!(routes[0], Route::Dynamic { .. }));

    let hit = get_request("/a/1/b");
    match match_route(&routes, &hit) {
        Some((idx, params)) => {
            assert_eq!(idx, 0);
            assert_eq!(params.get("x"), Some(&"1".to_string()));
        }
        None => panic!("expected the template to match"),
    }

    assert!(match_route(&routes, &get_request("/a/1/b/c")).is_none());
    assert!(match_route(&routes, &get_request("/a/b")).is_none());
}

#[test]
fn test_static_routes_match_byte_for_byte() {
    let routes = build_dynamic_routes(vec![("/hello".to_string(), Method::Get)]);
    assert!(matches!(routes[0], Route::Static { .. }));
    assert!(match_route(&routes, &get_request("/hello")).is_some());
    assert!(match_route(&routes, &get_request("/hellx")).is_none());
    assert!(match_route(&routes, &get_request("/hello/")).is_none());
}

#[test]
fn test_first_registered_route_wins() {
    let routes = build_dynamic_routes(vec![
        ("/p/:a".to_string(), Method::Get),
        ("/p/fixed".to_string(), Method::Get),
    ]);
    match match_route(&routes, &get_request("/p/fixed")) {
        Some((idx, params)) => {
            assert_eq!(idx, 0);
            assert_eq!(params.get("a"), Some(&"fixed".to_string()));
        }
        None => panic!("expected a match"),
    }
}

#[test]
fn test_router_method_not_allowed() {
    let routes = build_dynamic_routes(vec![("/echo".to_string(), Method::Post)]);
    match router(&routes, &get_request("/echo")) {
        RouteMatch::MethodNotAllowed => {}
        _ => panic!("expected the method-not-allowed fallback"),
    }
    let resp = default_handlers::method_not_allowed();
    assert_eq!(resp.status, StatusCode::MethodNotAllowed);
}

#[test]
fn test_router_not_found_fallback_response_is_used_verbatim() {
    let routes = build_dynamic_routes(vec![("/hello".to_string(), Method::Get)]);
    match router(&routes, &get_request("/nowhere")) {
        RouteMatch::NotFound => {}
        _ => panic!("expected the not-found fallback"),
    }
    // the registered not-found handler's response is what goes out
    let custom = HttpResponse::builder()
        .status(StatusCode::NotFound)
        .text("custom miss page".to_string())
        .build();
    let wire = write_response(custom);
    let text = String::from_utf8(wire).unwrap();
    assert!(text.starts_with("HTTP/1.1 404 Not Found"));
    assert!(text.contains("custom miss page"));

    let stock = default_handlers::not_found();
    assert_eq!(stock.status, StatusCode::NotFound);
    assert_eq!(
        stock.body.as_deref(),
        Some(b"The requested resource was not found on the server".as_ref())
    );
}

#[test]
fn test_param_capture_feeds_handler() {
    let routes = build_dynamic_routes(vec![("/person/:id/info".to_string(), Method::Get)]);
    let mut req = get_request("/person/42/info");
    match router(&routes, &req) {
        RouteMatch::Found { index, params } => {
            assert_eq!(index, 0);
            req.params.extend(&params);
        }
        _ => panic!("expected the route to resolve"),
    }
    let id = req.params.get("id").expect("handler param not registered");
    assert_eq!(id, "42");
    let reply = HttpResponse::builder().text(format!("Hello Person {}", id)).build();
    assert_eq!(reply.body.as_deref(), Some(b"Hello Person 42".as_ref()));
}

#[test]
fn test_hello_counter_handler() {
    let counter = AtomicU64::new(1);
    let hello = |_req: HttpRequest| -> HttpResponse {
        let count = counter.fetch_add(1, Ordering::SeqCst);
        HttpResponse::builder().text(format!("Hello {}", count)).build()
    };

    let routes = build_dynamic_routes(vec![("/hello".to_string(), Method::Get)]);
    let mut bodies = Vec::new();
    for _ in 0..3 {
        let req = get_request("/hello");
        match router(&routes, &req) {
            RouteMatch::Found { index, .. } => assert_eq!(index, 0),
            _ => panic!("expected the route to resolve"),
        }
        let resp = hello(req);
        bodies.push(String::from_utf8(resp.body.unwrap()).unwrap());
    }
    assert_eq!(bodies, vec!["Hello 1", "Hello 2", "Hello 3"]);
}

#[test]
fn test_echo_handler_reflects_body_and_headers() {
    let req = parse_request(
        b"POST /echo HTTP/1.1\r\nX-A: 1\r\nContent-Length: 3\r\n\r\nxyz".as_slice(),
    )
    .unwrap();
    let routes = build_dynamic_routes(vec![("/echo".to_string(), Method::Post)]);
    match router(&routes, &req) {
        RouteMatch::Found { index, .. } => assert_eq!(index, 0),
        _ => panic!("expected the route to resolve"),
    }
    let resp = HttpResponse::builder().body(req.body).headers(req.headers).build();
    assert_eq!(resp.status, StatusCode::Okay);
    assert_eq!(resp.body.as_deref(), Some(b"xyz".as_ref()));
    assert_eq!(resp.headers.get("X-A"), Some(&"1".to_string()));
    let wire = String::from_utf8(write_response(resp)).unwrap();
    assert!(wire.contains("\r\nX-A: 1"));
    assert!(wire.contains("\r\nContent-Length: 3"));
}

fn mw_auth(users: &[(&str, &str)], req: &mut HttpRequest) -> MiddlewareResult {
    if let Some(token) = req.headers.get("auth") {
        if let Some((_, username)) = users.iter().find(|(t, _)| t == token) {
            req.params.insert("_username", username.to_string());
            return MiddlewareResult::Continue;
        }
    }
    MiddlewareResult::Abort(
        HttpResponse::builder()
            .status(StatusCode::Forbidden)
            .text("Not logged in".to_string())
            .build(),
    )
}

#[test]
fn test_auth_middleware_aborts_without_token() {
    let users = [("abc123", "user1")];
    let mut req = get_request("/only/with/auth");
    match mw_auth(&users, &mut req) {
        MiddlewareResult::Abort(resp) => {
            assert_eq!(resp.status, StatusCode::Forbidden);
            assert_eq!(resp.body.as_deref(), Some(b"Not logged in".as_ref()));
        }
        MiddlewareResult::Continue => panic!("expected the pipeline to abort"),
    }
}

#[test]
fn test_auth_middleware_passes_with_token() {
    let users = [("abc123", "user1")];
    let mut req = parse_request(
        b"GET /only/with/auth HTTP/1.1\r\nauth: abc123\r\n\r\n".as_slice(),
    )
    .unwrap();
    match mw_auth(&users, &mut req) {
        MiddlewareResult::Continue => {}
        MiddlewareResult::Abort(_) => panic!("expected the pipeline to continue"),
    }
    let username = req.params.get("_username").expect("Username not registered in mw");
    let resp = HttpResponse::builder()
        .text(format!("Requsted by user: {}", username))
        .build();
    assert_eq!(resp.status, StatusCode::Okay);
    assert_eq!(resp.body.as_deref(), Some(b"Requsted by user: user1".as_ref()));
}

#[test]
fn test_bad_request_rendering() {
    let e = parse_request(b"GET / HTTP/1.2\r\n\r\n".as_slice()).unwrap_err();
    let resp = default_handlers::bad_request(&e);
    assert_eq!(resp.status, StatusCode::BadRequest);
    assert_eq!(
        resp.body.as_deref(),
        Some(b"Error processing HTTP: The specified HTTP version is not supported".as_ref())
    );
}

#[test]
fn test_default_error_handler_response() {
    let resp = default_handlers::error();
    assert_eq!(resp.status, StatusCode::InternalServerError);
    assert_eq!(resp.body.as_deref(), Some(b"Oops, something went wrong".as_ref()));
}
