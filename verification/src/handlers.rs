//! Handler invocation: each route's handler composes its extracted
//! parameters, the injected services and the request's middleware results
//! into a response value or a domain error. Both are mapped to a wire
//! response by the chain executor.

use vstd::prelude::*;
use crate::chain::MiddlewareResult;
use crate::codec::{num_chars, num_to_fixed};
use crate::models::{
    create_user, inserted_user, NewUser, User, UserError, UserStore, UserView, find_user_by_id,
};
use crate::roles::Role;
use crate::token::{encode_claims, hmac_sig, TokenService};
use crate::http::{Response, ResponseView};

verus! {

/// How long a login credential lives, in seconds: thirty days.
pub const LOGIN_TTL_SECS: u64 = 2592000;

/// A login request body.
pub struct Login {
    pub email: String,
    pub password: String,
}

/// A name extracted from the request path.
pub struct Name {
    pub name: String,
}

/// The parameters a handler declares, already deserialized by the caller's
/// own contracts. A shape that does not fit the handler is rejected.
pub enum HandlerInput {
    Empty,
    LoginBody(Login),
    PathName(Name),
    UserBody(NewUser),
    PathId(i32),
}

/// A domain error escaping a handler.
#[derive(Clone, Copy, PartialEq, Eq, Structural, Debug)]
pub enum HandlerError {
    /// the declared parameters do not fit the handler
    BadInput,
    /// the user data layer failed
    User(UserError),
}

/// The handlers the route table can name.
#[derive(Clone, Copy, PartialEq, Eq, Structural, Debug)]
pub enum Handler {
    Home,
    Login,
    DoSomething,
    CreateUser,
    GetUser,
}

/// The text of the token the login handler issues: a credential for the
/// fixed demonstration subject, as an administrator, expiring thirty days
/// after `now`.
pub open spec fn login_token_chars(key: Seq<u8>, now: u64) -> Seq<char>
    recommends
        now + LOGIN_TTL_SECS <= u64::MAX,
{
    let c = TokenService::issued_claims("uid"@, Role::Admin, (now + LOGIN_TTL_SECS) as u64);
    encode_claims(c) + seq!['.'] + hmac_sig(encode_claims(c), key)
}

/// The textual rendering of a user record in a response body.
pub open spec fn user_text(u: UserView) -> Seq<char> {
    num_chars(u.id as int, 20) + seq![' '] + u.first_name + seq![' '] + u.last_name + seq![' ']
        + u.email
}

/// What a handler produces and how it changes the user table, as a function
/// of the handler, its input, the signing key, the table and the time.
pub open spec fn handler_model(
    h: Handler,
    input: HandlerInput,
    key: Seq<u8>,
    store: Seq<UserView>,
    now: u64,
) -> (Result<ResponseView, HandlerError>, Seq<UserView>) {
    match (h, input) {
        (Handler::Home, HandlerInput::Empty) => (
            Ok(ResponseView { status: 200, body: "Welcome to darpi"@ }),
            store,
        ),
        (Handler::Login, HandlerInput::LoginBody(_)) => (
            Ok(ResponseView { status: 200, body: login_token_chars(key, now) }),
            store,
        ),
        (Handler::DoSomething, HandlerInput::PathName(n)) => (
            Ok(ResponseView { status: 200, body: "user token "@ + n.name@ }),
            store,
        ),
        (Handler::CreateUser, HandlerInput::UserBody(nu)) => if store.len() < i32::MAX {
            (
                Ok(
                    ResponseView {
                        status: 200,
                        body: user_text(inserted_user((store.len() + 1) as i32, nu@)),
                    },
                ),
                store.push(inserted_user((store.len() + 1) as i32, nu@)),
            )
        } else {
            (Err(HandlerError::User(UserError::InsertError)), store)
        },
        (Handler::GetUser, HandlerInput::PathId(id)) => if 1 <= id <= store.len() {
            (Ok(ResponseView { status: 200, body: user_text(store[id - 1]) }), store)
        } else {
            (Ok(ResponseView { status: 404, body: Seq::empty() }), store)
        },
        _ => (Err(HandlerError::BadInput), store),
    }
}

/// A handler outcome, seen mathematically.
pub open spec fn handler_result_view(r: Result<Response, HandlerError>) -> Result<
    ResponseView,
    HandlerError,
> {
    match r {
        Ok(resp) => Ok(resp@),
        Err(e) => Err(e),
    }
}

/// Render a user record for a response body.
fn render_user(u: &User) -> (s: String)
    requires
        u.id >= 0,
    ensures
        s@ == user_text(u@),
{
    let mut s = num_to_fixed(u.id as u64, 20);
    s.append(" ");
    s.append(u.first_name.as_str());
    s.append(" ");
    s.append(u.last_name.as_str());
    s.append(" ");
    s.append(u.email.as_str());
    proof {
        reveal_strlit(" ");
        assert(" "@ =~= seq![' ']);
        assert(s@ =~= user_text(u@));
    }
    s
}

/// Run a handler over its input, the injected services and the middleware
/// results of its request. The results are readable here and nowhere else;
/// these handlers leave them untouched.
pub fn invoke_handler(
    h: &Handler,
    input: &HandlerInput,
    _results: &Vec<MiddlewareResult>,
    token_service: &TokenService,
    store: &mut UserStore,
    now: u64,
) -> (r: Result<Response, HandlerError>)
    requires
        old(store).wf(),
        *h == Handler::Login ==> now + LOGIN_TTL_SECS <= u64::MAX,
    ensures
        final(store).wf(),
        (handler_result_view(r), final(store)@) == handler_model(
            *h,
            *input,
            token_service@,
            old(store)@,
            now,
        ),
{
    match (h, input) {
        (Handler::Home, HandlerInput::Empty) => Ok(
            Response { status: 200, body: "Welcome to darpi".to_owned() },
        ),
        (Handler::Login, HandlerInput::LoginBody(_)) => {
            let token = token_service.issue("uid", Role::Admin, LOGIN_TTL_SECS, now);
            proof {
                assert(token@ == login_token_chars(token_service@, now));
            }
            Ok(Response { status: 200, body: token.raw })
        },
        (Handler::DoSomething, HandlerInput::PathName(n)) => {
            let mut body = "user token ".to_owned();
            body.append(n.name.as_str());
            Ok(Response { status: 200, body })
        },
        (Handler::CreateUser, HandlerInput::UserBody(nu)) => {
            let copy = NewUser {
                first_name: nu.first_name.clone(),
                last_name: nu.last_name.clone(),
                email: nu.email.clone(),
            };
            match create_user(copy, store) {
                Ok(u) => {
                    let body = render_user(&u);
                    Ok(Response { status: 200, body })
                },
                Err(e) => Err(HandlerError::User(e)),
            }
        },
        (Handler::GetUser, HandlerInput::PathId(id)) => {
            match find_user_by_id(*id, &*store) {
                Ok(Some(u)) => {
                    let body = render_user(&u);
                    Ok(Response { status: 200, body })
                },
                Ok(None) => Ok(Response { status: 404, body: String::new() }),
                Err(_) => Err(HandlerError::User(UserError::InternalError)),
            }
        },
        _ => Err(HandlerError::BadInput),
    }
}

} // verus!
