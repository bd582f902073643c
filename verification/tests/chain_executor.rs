use service_core::chain::{
    ChainOutcome, MiddlewareResult, ReqMiddleware, RespMiddleware, Route, run_chain,
};
use service_core::container::{make_container, Container};
use service_core::handlers::{Handler, HandlerInput, Name};
use service_core::http::{Method, Request, RequestParts};
use service_core::jobs::{JobDispatcher, JobKind, JobTask};
use service_core::roles::Role;

fn request(body: Vec<u8>, authorization: Option<String>) -> Request {
    Request {
        parts: RequestParts {
            method: Method::Get,
            path: "/".to_string(),
            authorization,
        },
        body,
    }
}

fn route(
    required_role: Option<Role>,
    request_mw: Vec<ReqMiddleware>,
    response_mw: Vec<RespMiddleware>,
    handler: Handler,
) -> Route {
    Route { required_role, request_mw, response_mw, handler }
}

fn run(
    r: &Route,
    req: &Request,
    input: &HandlerInput,
    container: &mut Container,
) -> (ChainOutcome, JobDispatcher) {
    let mut dispatcher = JobDispatcher::new();
    let outcome = run_chain(r, req, input, container, &mut dispatcher, 1000);
    (outcome, dispatcher)
}

#[test]
fn home_route_responds() {
    let mut container = make_container(b"my secret".to_vec());
    let r = route(None, vec![], vec![], Handler::Home);
    let (outcome, _) = run(&r, &request(vec![], None), &HandlerInput::Empty, &mut container);
    assert!(outcome.handler_ran);
    assert_eq!(outcome.response.status, 200);
    assert_eq!(outcome.response.body, "Welcome to darpi");
}

#[test]
fn middleware_failure_short_circuits() {
    // declared middleware [A, B, C] where B fails: A runs, C and the
    // handler never run, and the response is B's mapped error
    let mut container = make_container(b"my secret".to_vec());
    let r = route(
        None,
        vec![
            ReqMiddleware::Roundtrip("a".to_string()),
            ReqMiddleware::BodySizeLimit(0),
            ReqMiddleware::Roundtrip("c".to_string()),
        ],
        vec![],
        Handler::Home,
    );
    let (outcome, _) = run(
        &r,
        &request(vec![1, 2, 3], None),
        &HandlerInput::Empty,
        &mut container,
    );
    assert_eq!(outcome.request_mw_ran, 2);
    assert!(!outcome.handler_ran);
    assert!(outcome.results.is_empty());
    assert_eq!(outcome.response.status, 413);
    assert_eq!(outcome.response.body, "body too large");
}

#[test]
fn results_sit_at_their_declared_index() {
    // [A, B] both succeeding: index 0 holds A's output and index 1 B's
    let mut container = make_container(b"my secret".to_vec());
    let r = route(
        None,
        vec![
            ReqMiddleware::Roundtrip("alpha".to_string()),
            ReqMiddleware::Roundtrip("beta".to_string()),
        ],
        vec![],
        Handler::Home,
    );
    let (outcome, _) = run(&r, &request(vec![], None), &HandlerInput::Empty, &mut container);
    assert!(outcome.handler_ran);
    assert_eq!(outcome.request_mw_ran, 2);
    assert_eq!(outcome.results.len(), 2);
    match &outcome.results[0] {
        MiddlewareResult::Text(t) => assert_eq!(t, "alpha from roundtrip middleware"),
        _ => panic!("index 0 should hold the first middleware's text"),
    }
    match &outcome.results[1] {
        MiddlewareResult::Text(t) => assert_eq!(t, "beta from roundtrip middleware"),
        _ => panic!("index 1 should hold the second middleware's text"),
    }
}

#[test]
fn missing_credential_is_refused_at_the_gate() {
    let mut container = make_container(b"my secret".to_vec());
    let r = route(
        Some(Role::Admin),
        vec![ReqMiddleware::Roundtrip("x".to_string())],
        vec![],
        Handler::Home,
    );
    let (outcome, _) = run(&r, &request(vec![], None), &HandlerInput::Empty, &mut container);
    assert_eq!(outcome.request_mw_ran, 0);
    assert!(!outcome.handler_ran);
    assert_eq!(outcome.response.status, 401);
    assert_eq!(outcome.response.body, "no credential");
}

#[test]
fn user_token_rejected_on_admin_route_and_accepted_on_user_route() {
    let mut container = make_container(b"my secret".to_vec());
    let token = container.token_service.issue("uid", Role::User, 1000, 1000);

    let admin_route = route(Some(Role::Admin), vec![], vec![], Handler::Home);
    let (outcome, _) = run(
        &admin_route,
        &request(vec![], Some(token.raw.clone())),
        &HandlerInput::Empty,
        &mut container,
    );
    assert_eq!(outcome.response.status, 403);
    assert_eq!(outcome.response.body, "access denied");
    assert!(!outcome.handler_ran);

    let user_route = route(Some(Role::User), vec![], vec![], Handler::Home);
    let (outcome, _) = run(
        &user_route,
        &request(vec![], Some(token.raw.clone())),
        &HandlerInput::Empty,
        &mut container,
    );
    assert_eq!(outcome.response.status, 200);
    assert!(outcome.handler_ran);
}

#[test]
fn admin_token_accepted_on_admin_route() {
    let mut container = make_container(b"my secret".to_vec());
    let token = container.token_service.issue("uid", Role::Admin, 1000, 1000);
    let r = route(Some(Role::Admin), vec![], vec![], Handler::Home);
    let (outcome, _) = run(
        &r,
        &request(vec![], Some(token.raw)),
        &HandlerInput::Empty,
        &mut container,
    );
    assert_eq!(outcome.response.status, 200);
    assert!(outcome.handler_ran);
}

#[test]
fn expired_token_is_refused_at_the_gate() {
    let mut container = make_container(b"my secret".to_vec());
    let token = container.token_service.issue("uid", Role::Admin, 1, 0);
    // the chain runs at now == 1000, far past exp == 1
    let r = route(Some(Role::Admin), vec![], vec![], Handler::Home);
    let (outcome, _) = run(
        &r,
        &request(vec![], Some(token.raw)),
        &HandlerInput::Empty,
        &mut container,
    );
    assert_eq!(outcome.response.status, 401);
    assert_eq!(outcome.response.body, "expired credential");
}

#[test]
fn do_something_formats_the_path_name() {
    let mut container = make_container(b"my secret".to_vec());
    let r = route(None, vec![], vec![], Handler::DoSomething);
    let input = HandlerInput::PathName(Name { name: "world".to_string() });
    let (outcome, _) = run(&r, &request(vec![], None), &input, &mut container);
    assert_eq!(outcome.response.status, 200);
    assert_eq!(outcome.response.body, "user token world");
}

#[test]
fn mismatched_input_is_a_bad_request() {
    let mut container = make_container(b"my secret".to_vec());
    let r = route(None, vec![], vec![], Handler::DoSomething);
    let (outcome, _) = run(&r, &request(vec![], None), &HandlerInput::Empty, &mut container);
    assert_eq!(outcome.response.status, 400);
    assert_eq!(outcome.response.body, "bad request");
}

#[test]
fn login_issues_a_validating_token() {
    let mut container = make_container(b"my secret".to_vec());
    let r = route(None, vec![], vec![], Handler::Login);
    let input = HandlerInput::LoginBody(service_core::handlers::Login {
        email: "a@b".to_string(),
        password: "pw".to_string(),
    });
    let (outcome, _) = run(&r, &request(vec![], None), &input, &mut container);
    assert_eq!(outcome.response.status, 200);
    let token = service_core::token::Token { raw: outcome.response.body };
    let claims = container.token_service.validate(&token, 2000).expect("fresh token validates");
    assert_eq!(claims.subject, "uid");
    assert_eq!(claims.role, "Admin");
    assert_eq!(claims.exp, 1000 + 2592000);
}

#[test]
fn response_middlewares_run_after_a_failure_too() {
    let mut container = make_container(b"my secret".to_vec());
    let r = route(
        None,
        vec![ReqMiddleware::BodySizeLimit(0)],
        vec![RespMiddleware::QueueStatusReport],
        Handler::Home,
    );
    let (outcome, dispatcher) = run(
        &r,
        &request(vec![9; 10], None),
        &HandlerInput::Empty,
        &mut container,
    );
    assert_eq!(outcome.response.status, 413);
    // the job saw the failed response's status snapshot
    assert_eq!(dispatcher.io_queue.len(), 1);
    assert_eq!(dispatcher.io_queue[0].kind, JobKind::IOBlocking);
    assert_eq!(dispatcher.io_queue[0].task, JobTask::ReportStatus(413));
}

#[test]
fn failing_response_middleware_is_counted_not_propagated() {
    let mut container = make_container(b"my secret".to_vec());
    let r = route(
        None,
        vec![],
        vec![
            RespMiddleware::RequireStatusBelow(100),
            RespMiddleware::QueueSleepNotify,
        ],
        Handler::Home,
    );
    let (outcome, dispatcher) = run(&r, &request(vec![], None), &HandlerInput::Empty, &mut container);
    // the response stands, the failure is only counted, the later
    // middleware still ran
    assert_eq!(outcome.response.status, 200);
    assert_eq!(outcome.resp_failures, 1);
    assert_eq!(dispatcher.io_queue.len(), 1);
    assert_eq!(dispatcher.io_queue[0].task, JobTask::SleepNotify);
}

#[test]
fn create_then_get_user_through_the_chain() {
    let mut container = make_container(b"my secret".to_vec());
    let token = container.token_service.issue("uid", Role::Admin, 1000, 1000);

    let create = route(
        Some(Role::Admin),
        vec![ReqMiddleware::BodySizeLimit(128)],
        vec![],
        Handler::CreateUser,
    );
    let input = HandlerInput::UserBody(service_core::models::NewUser {
        first_name: "Jane".to_string(),
        last_name: "Doe".to_string(),
        email: "jane@example.com".to_string(),
    });
    let (outcome, _) = run(
        &create,
        &request(vec![], Some(token.raw.clone())),
        &input,
        &mut container,
    );
    assert_eq!(outcome.response.status, 200);
    assert_eq!(
        outcome.response.body,
        "00000000000000000001 Jane Doe jane@example.com"
    );

    let get = route(None, vec![], vec![], Handler::GetUser);
    let (outcome, _) = run(
        &get,
        &request(vec![], None),
        &HandlerInput::PathId(1),
        &mut container,
    );
    assert_eq!(outcome.response.status, 200);
    assert_eq!(
        outcome.response.body,
        "00000000000000000001 Jane Doe jane@example.com"
    );

    let (outcome, _) = run(
        &get,
        &request(vec![], None),
        &HandlerInput::PathId(2),
        &mut container,
    );
    assert_eq!(outcome.response.status, 404);
    assert_eq!(outcome.response.body, "");
}

#[test]
fn body_exactly_at_the_limit_passes() {
    let mut container = make_container(b"my secret".to_vec());
    let r = route(
        None,
        vec![ReqMiddleware::BodySizeLimit(4)],
        vec![],
        Handler::Home,
    );
    let (outcome, _) = run(&r, &request(vec![0; 4], None), &HandlerInput::Empty, &mut container);
    assert_eq!(outcome.response.status, 200);
    let (outcome, _) = run(&r, &request(vec![0; 5], None), &HandlerInput::Empty, &mut container);
    assert_eq!(outcome.response.status, 413);
}
