use service_core::chain::run_chain;
use service_core::container::make_container;
use service_core::handlers::{Handler, HandlerInput};
use service_core::http::{Request, RequestParts};
use service_core::jobs::JobDispatcher;
use service_core::roles::Role;
use service_core::http::Method;
use service_core::models::{create_user, find_user_by_id, NewUser, UserStore};
use service_core::routes::{find_route, make_routes, split_path};

#[test]
fn paths_split_at_separators() {
    let segs = split_path("/user/42");
    assert_eq!(segs, vec!["", "user", "42"]);
    assert_eq!(split_path("/"), vec!["", ""]);
    assert_eq!(split_path(""), vec![""]);
    assert_eq!(split_path("a//b"), vec!["a", "", "b"]);
}

#[test]
fn the_table_routes_the_declared_paths() {
    let table = make_routes();

    let segs = split_path("/");
    let (idx, caps) = find_route(&table, Method::Get, &segs).expect("the landing page routes");
    assert_eq!(idx, 0);
    assert!(caps.is_empty());
    assert!(matches!(table[idx].route.handler, Handler::Home));

    let segs = split_path("/login");
    let (idx, _) = find_route(&table, Method::Post, &segs).expect("login routes");
    assert_eq!(idx, 1);
    assert!(matches!(table[idx].route.handler, Handler::Login));

    let segs = split_path("/user/7");
    let (idx, caps) = find_route(&table, Method::Get, &segs).expect("user lookup routes");
    assert_eq!(idx, 2);
    assert_eq!(caps, vec!["7"]);
    assert!(matches!(table[idx].route.handler, Handler::GetUser));

    let segs = split_path("/user");
    let (idx, caps) = find_route(&table, Method::Post, &segs).expect("user creation routes");
    assert_eq!(idx, 3);
    assert!(caps.is_empty());
    assert!(matches!(table[idx].route.handler, Handler::CreateUser));
}

#[test]
fn unknown_paths_and_methods_do_not_route() {
    let table = make_routes();
    assert!(find_route(&table, Method::Get, &split_path("/nope")).is_none());
    assert!(find_route(&table, Method::Post, &split_path("/")).is_none());
    assert!(find_route(&table, Method::Get, &split_path("/login")).is_none());
    assert!(find_route(&table, Method::Get, &split_path("/user/7/extra")).is_none());
}

#[test]
fn the_store_assigns_sequential_identifiers() {
    let mut store = UserStore::new();
    let jane = NewUser {
        first_name: "Jane".to_string(),
        last_name: "Doe".to_string(),
        email: "jane@example.com".to_string(),
    };
    let john = NewUser {
        first_name: "John".to_string(),
        last_name: "Roe".to_string(),
        email: "john@example.com".to_string(),
    };
    let u1 = create_user(jane, &mut store).expect("first insert succeeds");
    let u2 = create_user(john, &mut store).expect("second insert succeeds");
    assert_eq!(u1.id, 1);
    assert_eq!(u2.id, 2);
    assert_eq!(store.len(), 2);

    let found = find_user_by_id(2, &store).expect("lookup never fails");
    let found = found.expect("the second user exists");
    assert_eq!(found.first_name, "John");
    assert_eq!(found.email, "john@example.com");

    assert!(find_user_by_id(3, &store).expect("lookup never fails").is_none());
    assert!(find_user_by_id(0, &store).expect("lookup never fails").is_none());
    assert!(find_user_by_id(-5, &store).expect("lookup never fails").is_none());
}

#[test]
fn the_table_drives_the_chain_end_to_end() {
    let table = make_routes();
    let mut container = make_container(b"my secret".to_vec());
    let mut dispatcher = JobDispatcher::new();
    let token = container.token_service.issue("uid", Role::Admin, 1000, 1000);

    // POST /user with an administrator credential creates the record
    let segs = split_path("/user");
    let (idx, _) = find_route(&table, Method::Post, &segs).expect("user creation routes");
    let req = Request {
        parts: RequestParts {
            method: Method::Post,
            path: "/user".to_string(),
            authorization: Some(token.raw.clone()),
        },
        body: Vec::new(),
    };
    let input = HandlerInput::UserBody(NewUser {
        first_name: "Jane".to_string(),
        last_name: "Doe".to_string(),
        email: "jane@example.com".to_string(),
    });
    let outcome = run_chain(&table[idx].route, &req, &input, &mut container, &mut dispatcher, 1000);
    assert_eq!(outcome.response.status, 200);

    // each route queues its three response jobs: one per substrate here
    assert_eq!(dispatcher.future_queue.len(), 0);
    assert_eq!(dispatcher.io_queue.len(), 2);
    assert_eq!(dispatcher.cpu_queue.len(), 1);

    // without a credential the same route refuses the request
    let req = Request {
        parts: RequestParts {
            method: Method::Post,
            path: "/user".to_string(),
            authorization: None,
        },
        body: Vec::new(),
    };
    let outcome = run_chain(&table[idx].route, &req, &input, &mut container, &mut dispatcher, 1000);
    assert_eq!(outcome.response.status, 401);
}
