use routecore::demo::{demo_app, either_example, example, index};
use routecore::dispatch::{EitherResp, Handler, HandlerError, HandlerOutput, resolve};
use routecore::http::{Method, Request};
use routecore::router::{App, AppState, Scope, StartupError};

fn req(method: Method, path: &str) -> Request {
    Request { method, path: path.as_bytes().to_vec(), query: Vec::new(), body: Vec::new() }
}

fn req_with_body(method: Method, path: &str, body: &[u8]) -> Request {
    Request { method, path: path.as_bytes().to_vec(), query: Vec::new(), body: body.to_vec() }
}

fn req_with_query(method: Method, path: &str, query: &str) -> Request {
    Request {
        method,
        path: path.as_bytes().to_vec(),
        query: query.as_bytes().to_vec(),
        body: Vec::new(),
    }
}

#[test]
fn get_root_greets_with_state() {
    let app = demo_app().unwrap();
    let r = app.handle(&req(Method::Get, "/"));
    assert_eq!(r.status, 200);
    assert_eq!(r.body, b"Hello World Actix_state".to_vec());
}

#[test]
fn get_again_route() {
    let app = demo_app().unwrap();
    let r = app.handle(&req(Method::Get, "/again"));
    assert_eq!(r.status, 200);
    assert_eq!(r.body, b"Hello world again!".to_vec());
}

#[test]
fn get_hello_route() {
    let app = demo_app().unwrap();
    let r = app.handle(&req(Method::Get, "/hello"));
    assert_eq!(r.status, 200);
    assert_eq!(r.body, b"Attribute macro get".to_vec());
}

#[test]
fn get_scoped_route() {
    let app = demo_app().unwrap();
    let r = app.handle(&req(Method::Get, "/app/app_path"));
    assert_eq!(r.status, 200);
    assert_eq!(r.body, b"Scoped response".to_vec());
}

#[test]
fn get_configured_route() {
    let app = demo_app().unwrap();
    let r = app.handle(&req(Method::Get, "/conf"));
    assert_eq!(r.status, 200);
    assert_eq!(r.body, b"config route".to_vec());
}

#[test]
fn unregistered_path_is_404() {
    let app = demo_app().unwrap();
    let r = app.handle(&req(Method::Get, "/missing"));
    assert_eq!(r.status, 404);
    assert!(r.body.is_empty());
}

#[test]
fn wrong_method_is_405() {
    let app = demo_app().unwrap();
    let r = app.handle(&req(Method::Post, "/"));
    assert_eq!(r.status, 405);
    assert!(r.body.is_empty());
}

#[test]
fn malformed_path_is_404() {
    let app = demo_app().unwrap();
    let r = app.handle(&req(Method::Get, "no-leading-slash"));
    assert_eq!(r.status, 404);
    let r = app.handle(&req(Method::Get, ""));
    assert_eq!(r.status, 404);
}

#[test]
fn scoped_equals_direct_registration() {
    let scoped = demo_app().unwrap();
    let mut direct = App::new();
    direct.data(AppState::new(b"Actix_state".to_vec()));
    direct
        .route(
            Method::Get,
            &b"/app/app_path".to_vec(),
            Handler::Fixed { status: 200, body: b"Scoped response".to_vec() },
        )
        .unwrap();
    let q = req(Method::Get, "/app/app_path");
    let a = scoped.handle(&q);
    let b = direct.handle(&q);
    assert_eq!(a.status, b.status);
    assert_eq!(a.body, b.body);
}

#[test]
fn repeated_requests_are_byte_identical() {
    let app = demo_app().unwrap();
    let first = app.handle(&req(Method::Get, "/"));
    for _ in 0..4 {
        let next = app.handle(&req(Method::Get, "/"));
        assert_eq!(next.status, first.status);
        assert_eq!(next.body, first.body);
    }
}

#[test]
fn branch_handler_rejects_empty_body() {
    let mut app = App::new();
    app.route(Method::Post, &b"/register".to_vec(), either_example()).unwrap();
    let r = app.handle(&req_with_body(Method::Post, "/register", b""));
    assert_eq!(r.status, 400);
    assert_eq!(r.body, b"Bad Data".to_vec());
}

#[test]
fn branch_handler_accepts_nonempty_body() {
    let mut app = App::new();
    app.route(Method::Post, &b"/register".to_vec(), either_example()).unwrap();
    let r = app.handle(&req_with_body(Method::Post, "/register", b"payload"));
    assert_eq!(r.status, 200);
    assert_eq!(r.body, b"Hello!".to_vec());
}

#[test]
fn example_handler_responds() {
    let mut app = App::new();
    app.route(Method::Get, &b"/example".to_vec(), example()).unwrap();
    let r = app.handle(&req(Method::Get, "/example"));
    assert_eq!(r.status, 200);
    assert_eq!(r.body, b"Hello world".to_vec());
}

#[test]
fn greet_handler_reads_installed_state() {
    let mut app = App::new();
    app.data(AppState::new(b"other_name".to_vec()));
    app.route(Method::Get, &b"/".to_vec(), index()).unwrap();
    let r = app.handle(&req(Method::Get, "/"));
    assert_eq!(r.status, 200);
    assert_eq!(r.body, b"Hello World other_name".to_vec());
}

#[test]
fn param_echo_binds_path_value() {
    let mut app = App::new();
    app.route(Method::Get, &b"/users/{id}".to_vec(), Handler::ParamEcho { name: b"id".to_vec() })
        .unwrap();
    let r = app.handle(&req(Method::Get, "/users/42"));
    assert_eq!(r.status, 200);
    assert_eq!(r.body, b"42".to_vec());
}

#[test]
fn param_echo_missing_binding_is_400() {
    let mut app = App::new();
    app.route(Method::Get, &b"/users/me".to_vec(), Handler::ParamEcho { name: b"id".to_vec() })
        .unwrap();
    let r = app.handle(&req(Method::Get, "/users/me"));
    assert_eq!(r.status, 400);
    assert!(r.body.is_empty());
}

#[test]
fn literal_route_beats_parameter_route() {
    let mut app = App::new();
    app.route(Method::Get, &b"/users/{id}".to_vec(), Handler::ParamEcho { name: b"id".to_vec() })
        .unwrap();
    app.route(
        Method::Get,
        &b"/users/me".to_vec(),
        Handler::Fixed { status: 200, body: b"me page".to_vec() },
    )
    .unwrap();
    let r = app.handle(&req(Method::Get, "/users/me"));
    assert_eq!(r.body, b"me page".to_vec());
    let r = app.handle(&req(Method::Get, "/users/7"));
    assert_eq!(r.body, b"7".to_vec());
}

#[test]
fn query_echo_reads_named_key() {
    let mut app = App::new();
    app.route(Method::Get, &b"/search".to_vec(), Handler::QueryEcho { key: b"q".to_vec() })
        .unwrap();
    let r = app.handle(&req_with_query(Method::Get, "/search", "lang=en&q=verus"));
    assert_eq!(r.status, 200);
    assert_eq!(r.body, b"verus".to_vec());
}

#[test]
fn query_echo_missing_key_is_400() {
    let mut app = App::new();
    app.route(Method::Get, &b"/search".to_vec(), Handler::QueryEcho { key: b"q".to_vec() })
        .unwrap();
    let r = app.handle(&req_with_query(Method::Get, "/search", "lang=en"));
    assert_eq!(r.status, 400);
    assert!(r.body.is_empty());
}

#[test]
fn query_value_keeps_later_equals_signs() {
    let mut app = App::new();
    app.route(Method::Get, &b"/search".to_vec(), Handler::QueryEcho { key: b"q".to_vec() })
        .unwrap();
    let r = app.handle(&req_with_query(Method::Get, "/search", "q=a=b"));
    assert_eq!(r.body, b"a=b".to_vec());
    let r = app.handle(&req_with_query(Method::Get, "/search", "q"));
    assert_eq!(r.status, 200);
    assert!(r.body.is_empty());
}

#[test]
fn duplicate_route_is_a_conflict() {
    let mut app = App::new();
    app.route(Method::Get, &b"/x".to_vec(), example()).unwrap();
    let e = app.route(Method::Get, &b"/x".to_vec(), example());
    assert_eq!(e, Err(StartupError::Conflict));
}

#[test]
fn ambiguous_parameter_routes_conflict() {
    let mut app = App::new();
    app.route(Method::Get, &b"/a/{x}".to_vec(), Handler::ParamEcho { name: b"x".to_vec() })
        .unwrap();
    let e = app.route(Method::Get, &b"/{y}/b".to_vec(), Handler::ParamEcho { name: b"y".to_vec() });
    assert_eq!(e, Err(StartupError::Conflict));
}

#[test]
fn different_parameter_counts_do_not_conflict() {
    let mut app = App::new();
    app.route(Method::Get, &b"/a/{x}".to_vec(), Handler::ParamEcho { name: b"x".to_vec() })
        .unwrap();
    app.route(Method::Get, &b"/{y}/{z}".to_vec(), Handler::ParamEcho { name: b"z".to_vec() })
        .unwrap();
    let r = app.handle(&req(Method::Get, "/a/q"));
    assert_eq!(r.body, b"q".to_vec());
    let r = app.handle(&req(Method::Get, "/c/d"));
    assert_eq!(r.body, b"d".to_vec());
}

#[test]
fn different_methods_share_a_path() {
    let mut app = App::new();
    app.route(Method::Get, &b"/thing".to_vec(), example()).unwrap();
    app.route(
        Method::Post,
        &b"/thing".to_vec(),
        Handler::Fixed { status: 200, body: b"posted".to_vec() },
    )
    .unwrap();
    app.route(
        Method::Put,
        &b"/thing".to_vec(),
        Handler::Fixed { status: 200, body: b"put".to_vec() },
    )
    .unwrap();
    app.route(
        Method::Delete,
        &b"/thing".to_vec(),
        Handler::Fixed { status: 200, body: b"gone".to_vec() },
    )
    .unwrap();
    assert_eq!(app.handle(&req(Method::Post, "/thing")).body, b"posted".to_vec());
    assert_eq!(app.handle(&req(Method::Put, "/thing")).body, b"put".to_vec());
    assert_eq!(app.handle(&req(Method::Delete, "/thing")).body, b"gone".to_vec());
}

#[test]
fn bad_route_path_is_rejected() {
    let mut app = App::new();
    let e = app.route(Method::Get, &b"noslash".to_vec(), example());
    assert_eq!(e, Err(StartupError::BadPath));
    let e = Scope::new(&b"noslash".to_vec()).map(|_| ());
    assert_eq!(e, Err(StartupError::BadPath));
}

#[test]
fn resolver_maps_handler_error_to_500() {
    let out = HandlerOutput::Branch(EitherResp::B(Err(HandlerError { msg: b"boom".to_vec() })));
    let r = resolve(out);
    assert_eq!(r.status, 500);
    assert_eq!(r.body, b"boom".to_vec());
    let ok = HandlerOutput::Branch(EitherResp::B(Ok(b"fine".to_vec())));
    let r = resolve(ok);
    assert_eq!(r.status, 200);
    assert_eq!(r.body, b"fine".to_vec());
}

#[test]
fn scope_conflict_reported_at_service_time() {
    let mut app = App::new();
    app.route(Method::Get, &b"/app/app_path".to_vec(), example()).unwrap();
    let mut scope = Scope::new(&b"/app".to_vec()).unwrap();
    scope.route(Method::Get, &b"/app_path".to_vec(), example()).unwrap();
    let e = app.service(scope);
    assert_eq!(e, Err(StartupError::Conflict));
}
