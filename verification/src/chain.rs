//! The middleware chain executor. Per request: an implicit authorization
//! gate when the route requires a role, then the declared request
//! middlewares strictly in declaration order — the first failure skips the
//! rest and the handler — then the handler, then the declared response
//! middlewares, which always run, in order, over whatever response was
//! produced; a response middleware's failure is counted, never re-entered
//! into the pipeline.

use vstd::prelude::*;
use crate::container::Container;
use crate::handlers::{
    handler_model, invoke_handler, Handler, HandlerError, HandlerInput, LOGIN_TTL_SECS,
};
use crate::http::{Request, RequestView, Response, ResponseView};
use crate::jobs::{
    first_sync_io_job, first_sync_job, first_sync_job1, Job, JobDispatcher, JobKind, JobTask,
};
use crate::models::UserView;
use crate::roles::Role;
use crate::token::{AuthError, spec_validate, Token, TokenService};

verus! {

/// A request middleware: runs before the handler and may short-circuit.
pub enum ReqMiddleware {
    /// refuse bodies longer than the limit
    BodySizeLimit(u64),
    /// demand a valid credential of at least the given role
    Authorize(Role),
    /// pass a message through, tagged, to later stages
    Roundtrip(String),
}

/// The value a request middleware stores at its declaration index,
/// readable by the handler and later response middlewares.
pub enum MiddlewareResult {
    Accepted,
    Text(String),
    Credential(String),
}

/// The mathematical content of a middleware result.
#[verifier::ext_equal]
pub enum MiddlewareResultView {
    Accepted,
    Text(Seq<char>),
    Credential(Seq<char>),
}

impl View for MiddlewareResult {
    type V = MiddlewareResultView;

    open spec fn view(&self) -> MiddlewareResultView {
        match self {
            MiddlewareResult::Accepted => MiddlewareResultView::Accepted,
            MiddlewareResult::Text(s) => MiddlewareResultView::Text(s@),
            MiddlewareResult::Credential(s) => MiddlewareResultView::Credential(s@),
        }
    }
}

/// Why the chain short-circuited before the handler.
#[derive(Clone, Copy, PartialEq, Eq, Structural, Debug)]
pub enum ChainError {
    Auth(AuthError),
    BodyTooLarge(u64),
}

/// A response middleware: runs after the handler over the produced
/// response.
#[derive(Clone, Copy, PartialEq, Eq, Structural, Debug)]
pub enum RespMiddleware {
    /// submit a blocking job reporting the response's status code
    QueueStatusReport,
    /// submit the compute-bound counting job
    QueueCount,
    /// submit the blocking sleep-and-notify job
    QueueSleepNotify,
    /// fail — and be counted, not re-entered — when the status code is at
    /// or above the bound
    RequireStatusBelow(u16),
}

/// A route: its required role, its middleware lists and its handler.
/// Immutable once the table is built.
pub struct Route {
    pub required_role: Option<Role>,
    pub request_mw: Vec<ReqMiddleware>,
    pub response_mw: Vec<RespMiddleware>,
    pub handler: Handler,
}

/// What the roundtrip middleware appends to its message.
pub open spec fn roundtrip_suffix() -> Seq<char> {
    " from roundtrip middleware"@
}

/// What one request middleware produces, as a function of the request, the
/// signing key and the time.
pub open spec fn spec_req_mw(m: ReqMiddleware, req: RequestView, key: Seq<u8>, now: u64) -> Result<
    MiddlewareResultView,
    ChainError,
> {
    match m {
        ReqMiddleware::BodySizeLimit(limit) => if req.body.len() <= limit {
            Ok(MiddlewareResultView::Accepted)
        } else {
            Err(ChainError::BodyTooLarge(limit))
        },
        ReqMiddleware::Authorize(required) => match req.authorization {
            None => Err(ChainError::Auth(AuthError::NoCredential)),
            Some(tok) => match spec_validate(tok, key, now) {
                Err(e) => Err(ChainError::Auth(e)),
                Ok(c) => if required.spec_authorized(c.role) {
                    Ok(MiddlewareResultView::Credential(tok))
                } else {
                    Err(ChainError::Auth(AuthError::AccessDenied))
                },
            },
        },
        ReqMiddleware::Roundtrip(msg) => Ok(MiddlewareResultView::Text(msg@ + roundtrip_suffix())),
    }
}

/// A middleware outcome, seen mathematically.
pub open spec fn mw_result_view(r: Result<MiddlewareResult, ChainError>) -> Result<
    MiddlewareResultView,
    ChainError,
> {
    match r {
        Ok(v) => Ok(v@),
        Err(e) => Err(e),
    }
}

/// The error inside a failed middleware outcome.
pub open spec fn spec_mw_err(r: Result<MiddlewareResultView, ChainError>) -> ChainError {
    match r {
        Err(e) => e,
        Ok(_) => ChainError::Auth(AuthError::NoCredential),
    }
}

/// The value inside a successful middleware outcome.
pub open spec fn mw_ok_value(r: Result<MiddlewareResultView, ChainError>) -> MiddlewareResultView {
    match r {
        Ok(v) => v,
        Err(_) => MiddlewareResultView::Accepted,
    }
}

/// Index of the first failing middleware among the first `n`, if any.
pub open spec fn first_fail_upto(
    mws: Seq<ReqMiddleware>,
    req: RequestView,
    key: Seq<u8>,
    now: u64,
    n: int,
) -> Option<int>
    decreases n,
{
    if n <= 0 {
        None
    } else {
        match first_fail_upto(mws, req, key, now, n - 1) {
            Some(j) => Some(j),
            None => if spec_req_mw(mws[n - 1], req, key, now) is Err {
                Some(n - 1)
            } else {
                None
            },
        }
    }
}

/// Index of the first failing middleware of the list, if any.
pub open spec fn spec_first_fail(
    mws: Seq<ReqMiddleware>,
    req: RequestView,
    key: Seq<u8>,
    now: u64,
) -> Option<int> {
    first_fail_upto(mws, req, key, now, mws.len() as int)
}

/// Once a failure is found among the first `n`, looking further changes
/// nothing.
pub proof fn lemma_first_fail_stable(
    mws: Seq<ReqMiddleware>,
    req: RequestView,
    key: Seq<u8>,
    now: u64,
    n: int,
    m: int,
)
    requires
        0 <= n <= m,
        first_fail_upto(mws, req, key, now, n) is Some,
    ensures
        first_fail_upto(mws, req, key, now, m) == first_fail_upto(mws, req, key, now, n),
    decreases m,
{
    if m > n {
        lemma_first_fail_stable(mws, req, key, now, n, m - 1);
    }
}

/// What the first-failure index means: everything before it succeeds, it
/// fails; absence means everything succeeds.
pub proof fn lemma_first_fail_spec(mws: Seq<ReqMiddleware>, req: RequestView, key: Seq<u8>, now: u64, n: int)
    requires
        0 <= n <= mws.len(),
    ensures
        match first_fail_upto(mws, req, key, now, n) {
            Some(j) => 0 <= j < n && spec_req_mw(mws[j], req, key, now) is Err && (forall|k: int|
                0 <= k < j ==> !(spec_req_mw(mws[k], req, key, now) is Err)),
            None => forall|k: int| 0 <= k < n ==> !(spec_req_mw(mws[k], req, key, now) is Err),
        },
    decreases n,
{
    if n > 0 {
        lemma_first_fail_spec(mws, req, key, now, n - 1);
    }
}

/// The results as the handler and the response middlewares may read them:
/// the value of the `i`-th declared middleware at index `i`, never moved.
pub open spec fn mw_results_model(
    mws: Seq<ReqMiddleware>,
    req: RequestView,
    key: Seq<u8>,
    now: u64,
) -> Seq<MiddlewareResultView> {
    Seq::new(mws.len(), |i: int| mw_ok_value(spec_req_mw(mws[i], req, key, now)))
}

/// The implicit authorization gate of a route with a required role.
pub open spec fn spec_auth_gate(
    required: Option<Role>,
    req: RequestView,
    key: Seq<u8>,
    now: u64,
) -> Option<ChainError> {
    match required {
        None => None,
        Some(r) => match spec_req_mw(ReqMiddleware::Authorize(r), req, key, now) {
            Ok(_) => None,
            Err(e) => Some(e),
        },
    }
}

/// How the chain short-circuits, if it does: how many declared request
/// middlewares ran and with which error.
pub open spec fn spec_chain_error(route: Route, req: RequestView, key: Seq<u8>, now: u64) -> Option<
    (int, ChainError),
> {
    match spec_auth_gate(route.required_role, req, key, now) {
        Some(e) => Some((0, e)),
        None => match spec_first_fail(route.request_mw@, req, key, now) {
            Some(j) => Some(
                (j + 1, spec_mw_err(spec_req_mw(route.request_mw@[j], req, key, now))),
            ),
            None => None,
        },
    }
}

/// The final response of the chain.
pub open spec fn spec_chain_response(
    route: Route,
    req: RequestView,
    input: HandlerInput,
    key: Seq<u8>,
    store: Seq<UserView>,
    now: u64,
) -> ResponseView {
    match spec_chain_error(route, req, key, now) {
        Some((_ran, e)) => spec_error_response(e),
        None => match handler_model(route.handler, input, key, store, now).0 {
            Ok(rv) => rv,
            Err(he) => spec_handler_error_response(he),
        },
    }
}

/// The user table after the chain: untouched unless the handler ran.
pub open spec fn spec_chain_store(
    route: Route,
    req: RequestView,
    input: HandlerInput,
    key: Seq<u8>,
    store: Seq<UserView>,
    now: u64,
) -> Seq<UserView> {
    match spec_chain_error(route, req, key, now) {
        Some(_) => store,
        None => handler_model(route.handler, input, key, store, now).1,
    }
}

/// The wire response of a chain error.
pub open spec fn spec_error_response(e: ChainError) -> ResponseView {
    match e {
        ChainError::Auth(AuthError::NoCredential) => ResponseView {
            status: 401,
            body: "no credential"@,
        },
        ChainError::Auth(AuthError::Malformed) => ResponseView {
            status: 401,
            body: "malformed credential"@,
        },
        ChainError::Auth(AuthError::Expired) => ResponseView {
            status: 401,
            body: "expired credential"@,
        },
        ChainError::Auth(AuthError::AccessDenied) => ResponseView {
            status: 403,
            body: "access denied"@,
        },
        ChainError::BodyTooLarge(_) => ResponseView { status: 413, body: "body too large"@ },
    }
}

/// The wire response of a handler error.
pub open spec fn spec_handler_error_response(e: HandlerError) -> ResponseView {
    match e {
        HandlerError::BadInput => ResponseView { status: 400, body: "bad request"@ },
        HandlerError::User(_) => ResponseView { status: 500, body: "internal error"@ },
    }
}

/// The job a response middleware submits over a response with the given
/// status, if it submits one.
pub open spec fn resp_job_of(m: RespMiddleware, status: u16) -> Option<Job> {
    match m {
        RespMiddleware::QueueStatusReport => Some(
            Job { kind: JobKind::IOBlocking, task: JobTask::ReportStatus(status) },
        ),
        RespMiddleware::QueueCount => Some(
            Job { kind: JobKind::CpuBound, task: JobTask::CountTo(10000000) },
        ),
        RespMiddleware::QueueSleepNotify => Some(
            Job { kind: JobKind::IOBlocking, task: JobTask::SleepNotify },
        ),
        RespMiddleware::RequireStatusBelow(_) => None,
    }
}

/// The jobs of the given kind that the first `n` response middlewares
/// submit, in order.
pub open spec fn resp_jobs_upto(
    mws: Seq<RespMiddleware>,
    status: u16,
    kind: JobKind,
    n: int,
) -> Seq<Job>
    decreases n,
{
    if n <= 0 {
        Seq::empty()
    } else {
        let pre = resp_jobs_upto(mws, status, kind, n - 1);
        match resp_job_of(mws[n - 1], status) {
            Some(j) => if j.kind == kind {
                pre.push(j)
            } else {
                pre
            },
            None => pre,
        }
    }
}

/// All jobs of the given kind the response middlewares submit.
pub open spec fn spec_resp_jobs(mws: Seq<RespMiddleware>, status: u16, kind: JobKind) -> Seq<Job> {
    resp_jobs_upto(mws, status, kind, mws.len() as int)
}

/// How many of the first `n` response middlewares fail over the status.
pub open spec fn resp_failures_upto(mws: Seq<RespMiddleware>, status: u16, n: int) -> int
    decreases n,
{
    if n <= 0 {
        0
    } else {
        resp_failures_upto(mws, status, n - 1) + (match mws[n - 1] {
            RespMiddleware::RequireStatusBelow(b) => if status >= b {
                1int
            } else {
                0
            },
            _ => 0,
        })
    }
}

/// Map a chain error to its wire response.
pub fn error_response(e: &ChainError) -> (r: Response)
    ensures
        r@ == spec_error_response(*e),
{
    match e {
        ChainError::Auth(AuthError::NoCredential) => Response {
            status: 401,
            body: "no credential".to_owned(),
        },
        ChainError::Auth(AuthError::Malformed) => Response {
            status: 401,
            body: "malformed credential".to_owned(),
        },
        ChainError::Auth(AuthError::Expired) => Response {
            status: 401,
            body: "expired credential".to_owned(),
        },
        ChainError::Auth(AuthError::AccessDenied) => Response {
            status: 403,
            body: "access denied".to_owned(),
        },
        ChainError::BodyTooLarge(_) => Response { status: 413, body: "body too large".to_owned() },
    }
}

/// Map a handler error to its wire response.
pub fn handler_error_response(e: &HandlerError) -> (r: Response)
    ensures
        r@ == spec_handler_error_response(*e),
{
    match e {
        HandlerError::BadInput => Response { status: 400, body: "bad request".to_owned() },
        HandlerError::User(_) => Response { status: 500, body: "internal error".to_owned() },
    }
}

/// Run one request middleware.
pub fn run_req_mw(
    m: &ReqMiddleware,
    req: &Request,
    token_service: &TokenService,
    now: u64,
) -> (r: Result<MiddlewareResult, ChainError>)
    ensures
        mw_result_view(r) == spec_req_mw(*m, req@, token_service@, now),
{
    match m {
        ReqMiddleware::BodySizeLimit(limit) => {
            let blen = req.body.len();
            if blen as u64 <= *limit {
                Ok(MiddlewareResult::Accepted)
            } else {
                Err(ChainError::BodyTooLarge(*limit))
            }
        },
        ReqMiddleware::Authorize(required) => {
            match &req.parts.authorization {
                None => Err(ChainError::Auth(AuthError::NoCredential)),
                Some(tok_str) => {
                    let token = Token { raw: tok_str.clone() };
                    match token_service.validate(&token, now) {
                        Err(e) => Err(ChainError::Auth(e)),
                        Ok(claims) => {
                            if required.is_authorized(&claims) {
                                Ok(MiddlewareResult::Credential(tok_str.clone()))
                            } else {
                                Err(ChainError::Auth(AuthError::AccessDenied))
                            }
                        },
                    }
                },
            }
        },
        ReqMiddleware::Roundtrip(msg) => {
            let mut text = msg.clone();
            text.append(" from roundtrip middleware");
            Ok(MiddlewareResult::Text(text))
        },
    }
}

/// What the chain hands back beside the response: how far it got.
pub struct ChainOutcome {
    pub response: Response,
    /// declared request middlewares that executed
    pub request_mw_ran: usize,
    pub handler_ran: bool,
    /// the stored middleware results; empty unless the handler ran
    pub results: Vec<MiddlewareResult>,
    /// response middlewares that failed (and were only counted)
    pub resp_failures: usize,
}

/// Run the whole chain for one request.
pub fn run_chain(
    route: &Route,
    req: &Request,
    input: &HandlerInput,
    container: &mut Container,
    dispatcher: &mut JobDispatcher,
    now: u64,
) -> (outcome: ChainOutcome)
    requires
        old(container).wf(),
        route.handler == Handler::Login ==> now + LOGIN_TTL_SECS <= u64::MAX,
    ensures
        final(container).wf(),
        final(container).token_service@ == old(container).token_service@,
        outcome.response@ == spec_chain_response(
            *route,
            req@,
            *input,
            old(container).token_service@,
            old(container).db_pool.db_pool@,
            now,
        ),
        final(container).db_pool.db_pool@ == spec_chain_store(
            *route,
            req@,
            *input,
            old(container).token_service@,
            old(container).db_pool.db_pool@,
            now,
        ),
        match spec_chain_error(*route, req@, old(container).token_service@, now) {
            Some((ran, _e)) => outcome.request_mw_ran == ran && !outcome.handler_ran
                && outcome.results@.len() == 0,
            None => outcome.request_mw_ran == route.request_mw@.len() && outcome.handler_ran
                && outcome.results@.len() == route.request_mw@.len() && (forall|i: int|
                0 <= i < outcome.results@.len() ==> outcome.results@[i]@ == mw_results_model(
                    route.request_mw@,
                    req@,
                    old(container).token_service@,
                    now,
                )[i]),
        },
        final(dispatcher).future_queue@ == old(dispatcher).future_queue@ + spec_resp_jobs(
            route.response_mw@,
            outcome.response@.status,
            JobKind::Future,
        ),
        final(dispatcher).io_queue@ == old(dispatcher).io_queue@ + spec_resp_jobs(
            route.response_mw@,
            outcome.response@.status,
            JobKind::IOBlocking,
        ),
        final(dispatcher).cpu_queue@ == old(dispatcher).cpu_queue@ + spec_resp_jobs(
            route.response_mw@,
            outcome.response@.status,
            JobKind::CpuBound,
        ),
        old(dispatcher).wf() ==> final(dispatcher).wf(),
        outcome.resp_failures == resp_failures_upto(
            route.response_mw@,
            outcome.response@.status,
            route.response_mw@.len() as int,
        ),
{
    let ghost key = container.token_service@;
    let ghost reqv = req@;
    let ghost mws = route.request_mw@;
    // the implicit authorization gate
    let gate_err: Option<ChainError> = match &route.required_role {
        None => None,
        Some(required) => {
            let gate = ReqMiddleware::Authorize(*required);
            match run_req_mw(&gate, req, &container.token_service, now) {
                Ok(_) => None,
                Err(e) => Some(e),
            }
        },
    };
    proof {
        assert(gate_err == spec_auth_gate(route.required_role, reqv, key, now));
    }
    let response: Response;
    let request_mw_ran: usize;
    let handler_ran: bool;
    let mut results: Vec<MiddlewareResult> = Vec::new();
    match gate_err {
        Some(e) => {
            response = error_response(&e);
            request_mw_ran = 0;
            handler_ran = false;
        },
        None => {
            // declared request middlewares, strictly in declaration order
            let n = route.request_mw.len();
            let mut i: usize = 0;
            let mut fail: Option<ChainError> = None;
            while i < n && fail.is_none()
                invariant
                    mws == route.request_mw@,
                    n == mws.len(),
                    i <= n,
                    reqv == req@,
                    key == container.token_service@,
                    container == old(container),
                    match fail {
                        None => first_fail_upto(mws, reqv, key, now, i as int) is None
                            && results@.len() == i && (forall|k: int|
                            0 <= k < i ==> results@[k]@ == mw_ok_value(
                                spec_req_mw(mws[k], reqv, key, now),
                            )),
                        Some(e) => i < n && spec_first_fail(mws, reqv, key, now) == Some(i as int)
                            && e == spec_mw_err(spec_req_mw(mws[i as int], reqv, key, now)),
                    },
                decreases n - i, (if fail is Some { 0int } else { 1int }),
            {
                let m = &route.request_mw[i];
                match run_req_mw(m, req, &container.token_service, now) {
                    Ok(res) => {
                        results.push(res);
                        i = i + 1;
                        proof {
                            assert(first_fail_upto(mws, reqv, key, now, i as int) is None);
                        }
                    },
                    Err(e) => {
                        proof {
                            assert(first_fail_upto(mws, reqv, key, now, i as int + 1)
                                == Some(i as int));
                            lemma_first_fail_stable(mws, reqv, key, now, i as int + 1, n as int);
                        }
                        fail = Some(e);
                    },
                }
            }
            match fail {
                Some(e) => {
                    response = error_response(&e);
                    request_mw_ran = i + 1;
                    handler_ran = false;
                    results = Vec::new();
                },
                None => {
                    proof {
                        assert(results@.len() == mws.len());
                        assert forall|k: int| 0 <= k < results@.len() implies results@[k]@
                            == mw_results_model(mws, reqv, key, now)[k] by {}
                    }
                    let hres = invoke_handler(
                        &route.handler,
                        input,
                        &results,
                        &container.token_service,
                        &mut container.db_pool.db_pool,
                        now,
                    );
                    response = match hres {
                        Ok(resp) => resp,
                        Err(he) => handler_error_response(&he),
                    };
                    request_mw_ran = n;
                    handler_ran = true;
                },
            }
        },
    }
    // response middlewares always run, in declaration order
    let ghost rmws = route.response_mw@;
    let ghost status = response@.status;
    let rn = route.response_mw.len();
    let mut j: usize = 0;
    let mut resp_failures: usize = 0;
    while j < rn
        invariant
            rmws == route.response_mw@,
            rn == rmws.len(),
            j <= rn,
            resp_failures <= j,
            status == response@.status,
            dispatcher.future_queue@ == old(dispatcher).future_queue@ + resp_jobs_upto(
                rmws,
                status,
                JobKind::Future,
                j as int,
            ),
            dispatcher.io_queue@ == old(dispatcher).io_queue@ + resp_jobs_upto(
                rmws,
                status,
                JobKind::IOBlocking,
                j as int,
            ),
            dispatcher.cpu_queue@ == old(dispatcher).cpu_queue@ + resp_jobs_upto(
                rmws,
                status,
                JobKind::CpuBound,
                j as int,
            ),
            old(dispatcher).wf() ==> dispatcher.wf(),
            resp_failures == resp_failures_upto(rmws, status, j as int),
        decreases rn - j,
    {
        match &route.response_mw[j] {
            RespMiddleware::QueueStatusReport => {
                let job = first_sync_job(response.status);
                dispatcher.submit(job);
            },
            RespMiddleware::QueueCount => {
                let job = first_sync_job1();
                dispatcher.submit(job);
            },
            RespMiddleware::QueueSleepNotify => {
                let job = first_sync_io_job();
                dispatcher.submit(job);
            },
            RespMiddleware::RequireStatusBelow(b) => {
                if response.status >= *b {
                    resp_failures = resp_failures + 1;
                }
            },
        }
        j = j + 1;
        proof {
            lemma_resp_step(rmws, status, j as int, old(dispatcher).future_queue@,
                old(dispatcher).io_queue@, old(dispatcher).cpu_queue@);
        }
    }
    ChainOutcome { response, request_mw_ran, handler_ran, results, resp_failures }
}

/// Appending one step's job commutes with queue concatenation.
proof fn lemma_resp_step(
    rmws: Seq<RespMiddleware>,
    status: u16,
    j: int,
    f0: Seq<Job>,
    i0: Seq<Job>,
    c0: Seq<Job>,
)
    requires
        0 < j <= rmws.len(),
    ensures
        match resp_job_of(rmws[j - 1], status) {
            Some(job) => {
                &&& (job.kind == JobKind::Future ==> f0 + resp_jobs_upto(
                    rmws,
                    status,
                    JobKind::Future,
                    j,
                ) =~= (f0 + resp_jobs_upto(rmws, status, JobKind::Future, j - 1)).push(job))
                &&& (job.kind == JobKind::IOBlocking ==> i0 + resp_jobs_upto(
                    rmws,
                    status,
                    JobKind::IOBlocking,
                    j,
                ) =~= (i0 + resp_jobs_upto(rmws, status, JobKind::IOBlocking, j - 1)).push(job))
                &&& (job.kind == JobKind::CpuBound ==> c0 + resp_jobs_upto(
                    rmws,
                    status,
                    JobKind::CpuBound,
                    j,
                ) =~= (c0 + resp_jobs_upto(rmws, status, JobKind::CpuBound, j - 1)).push(job))
                &&& (job.kind != JobKind::Future ==> resp_jobs_upto(
                    rmws,
                    status,
                    JobKind::Future,
                    j,
                ) == resp_jobs_upto(rmws, status, JobKind::Future, j - 1))
                &&& (job.kind != JobKind::IOBlocking ==> resp_jobs_upto(
                    rmws,
                    status,
                    JobKind::IOBlocking,
                    j,
                ) == resp_jobs_upto(rmws, status, JobKind::IOBlocking, j - 1))
                &&& (job.kind != JobKind::CpuBound ==> resp_jobs_upto(
                    rmws,
                    status,
                    JobKind::CpuBound,
                    j,
                ) == resp_jobs_upto(rmws, status, JobKind::CpuBound, j - 1))
            },
            None => {
                &&& resp_jobs_upto(rmws, status, JobKind::Future, j) == resp_jobs_upto(
                    rmws,
                    status,
                    JobKind::Future,
                    j - 1,
                )
                &&& resp_jobs_upto(rmws, status, JobKind::IOBlocking, j) == resp_jobs_upto(
                    rmws,
                    status,
                    JobKind::IOBlocking,
                    j - 1,
                )
                &&& resp_jobs_upto(rmws, status, JobKind::CpuBound, j) == resp_jobs_upto(
                    rmws,
                    status,
                    JobKind::CpuBound,
                    j - 1,
                )
            },
        },
{
}

/// A failing request middleware short-circuits: nothing after it runs, the
/// handler never runs, the user table is untouched, and the response is the
/// failing middleware's own mapped error.
pub proof fn lemma_failure_short_circuits(
    route: Route,
    req: RequestView,
    input: HandlerInput,
    key: Seq<u8>,
    store: Seq<UserView>,
    now: u64,
    j: int,
)
    requires
        spec_auth_gate(route.required_role, req, key, now) is None,
        spec_first_fail(route.request_mw@, req, key, now) == Some(j),
    ensures
        spec_chain_error(route, req, key, now) == Some(
            (j + 1, spec_mw_err(spec_req_mw(route.request_mw@[j], req, key, now))),
        ),
        spec_chain_response(route, req, input, key, store, now) == spec_error_response(
            spec_mw_err(spec_req_mw(route.request_mw@[j], req, key, now)),
        ),
        spec_chain_store(route, req, input, key, store, now) == store,
{
}

/// When every request middleware succeeds, the handler reads the value of
/// the `i`-th declared middleware at index `i`, never another one.
pub proof fn lemma_results_index_stable(
    mws: Seq<ReqMiddleware>,
    req: RequestView,
    key: Seq<u8>,
    now: u64,
    i: int,
)
    requires
        0 <= i < mws.len(),
    ensures
        mw_results_model(mws, req, key, now)[i] == mw_ok_value(spec_req_mw(mws[i], req, key, now)),
{
}


/// A route's gate admits every valid credential whose role suffices: with
/// a token that validates to claims naming a role at least the required
/// one, the implicit authorization middleware passes and stores the
/// credential.
pub proof fn lemma_sufficient_token_passes_gate(
    required: Role,
    actual: Role,
    req: RequestView,
    key: Seq<u8>,
    now: u64,
    t: Seq<char>,
    c: crate::token::ClaimsView,
)
    requires
        req.authorization == Some(t),
        spec_validate(t, key, now) == Ok::<crate::token::ClaimsView, AuthError>(c),
        c.role == actual.spec_name(),
        required.spec_le(actual),
    ensures
        spec_req_mw(ReqMiddleware::Authorize(required), req, key, now) == Ok::<
            MiddlewareResultView,
            ChainError,
        >(MiddlewareResultView::Credential(t)),
        spec_auth_gate(Some(required), req, key, now) is None,
{
    crate::roles::lemma_sufficient_role_authorized(required, actual);
}

} // verus!
