//! The route table: path patterns as data, built once at startup, looked up
//! per request. A pattern is a list of segments, each a literal or a
//! parameter; a path matches when its own segments line up with the
//! pattern's, and the parameter segments are captured in order.

use vstd::prelude::*;
use crate::chain::{ReqMiddleware, RespMiddleware, Route};
use crate::handlers::Handler;
use crate::http::Method;
use crate::roles::{str_eq, Role};

verus! {

/// One segment of a path pattern.
pub enum PatSeg {
    /// matches exactly this text
    Literal(String),
    /// matches any one segment, capturing it
    Param,
}

/// A declared route: where it listens and what the chain runs.
pub struct RouteEntry {
    pub method: Method,
    pub pattern: Vec<PatSeg>,
    pub route: Route,
}

/// The segments joined back with `'/'` between them.
pub open spec fn joined(segs: Seq<Seq<char>>) -> Seq<char>
    decreases segs.len(),
{
    if segs.len() == 0 {
        Seq::empty()
    } else if segs.len() == 1 {
        segs[0]
    } else {
        joined(segs.drop_last()) + seq!['/'] + segs.last()
    }
}

/// No segment holds a separator.
pub open spec fn slash_free(segs: Seq<Seq<char>>) -> bool {
    forall|i: int, j: int|
        0 <= i < segs.len() && 0 <= j < segs[i].len() ==> #[trigger] segs[i][j] != '/'
}

/// A slash-free list of segments stays slash-free when a slash-free
/// segment is appended.
proof fn lemma_slash_free_push(views: Seq<Seq<char>>, cur: Seq<char>)
    requires
        slash_free(views),
        forall|j: int| 0 <= j < cur.len() ==> cur[j] != '/',
    ensures
        slash_free(views.push(cur)),
{
    let vp = views.push(cur);
    assert forall|i: int, j: int|
        0 <= i < vp.len() && 0 <= j < vp[i].len() implies #[trigger] vp[i][j] != '/' by {
        if i < views.len() {
            assert(vp[i] == views[i]);
        } else {
            assert(vp[i] == cur);
        }
    }
}

/// Relies on `String::push`: appends exactly one character to the string.
#[verifier::external_body]
fn push_char(s: &mut String, c: char)
    ensures
        final(s)@ == old(s)@.push(c),
{
    s.push(c);
}

/// Split a path at its separators. The segments hold no separator, and
/// joining them back with separators gives the path again; splitting is
/// the unique such decomposition.
pub fn split_path(path: &str) -> (segs: Vec<String>)
    ensures
        segs@.len() >= 1,
        slash_free(Seq::new(segs@.len(), |i: int| segs@[i]@)),
        joined(Seq::new(segs@.len(), |i: int| segs@[i]@)) == path@,
{
    let len = path.unicode_len();
    let mut segs: Vec<String> = Vec::new();
    let mut current = String::new();
    let mut k: usize = 0;
    while k < len
        invariant
            len == path@.len(),
            k <= len,
            (forall|j: int| 0 <= j < current@.len() ==> current@[j] != '/'),
            slash_free(Seq::new(segs@.len(), |i: int| segs@[i]@)),
            joined(Seq::new(segs@.len(), |i: int| segs@[i]@).push(current@)) == path@.subrange(
                0,
                k as int,
            ),
        decreases len - k,
    {
        let ghost views_pre = Seq::new(segs@.len(), |i: int| segs@[i]@);
        let ghost cur_pre = current@;
        let c = path.get_char(k);
        if c == '/' {
            segs.push(current);
            current = String::new();
            proof {
                let views = Seq::new(segs@.len(), |i: int| segs@[i]@);
                assert(views =~= views_pre.push(cur_pre));
                lemma_slash_free_push(views_pre, cur_pre);
                assert(views.push(current@).drop_last() =~= views);
                assert(views.push(current@).last() =~= current@);
                assert(joined(views.push(current@)) == joined(views) + seq!['/'] + current@);
                assert(joined(views) + seq!['/'] + current@ =~= joined(views).push('/'));
                assert(path@.subrange(0, k as int + 1) =~= path@.subrange(0, k as int).push(
                    path@[k as int],
                ));
            }
        } else {
            push_char(&mut current, c);
            proof {
                let views = Seq::new(segs@.len(), |i: int| segs@[i]@);
                assert(views =~= views_pre);
                assert(current@ =~= cur_pre.push(c));
                lemma_joined_push_last(views, cur_pre, c);
                assert(path@.subrange(0, k as int + 1) =~= path@.subrange(0, k as int).push(
                    path@[k as int],
                ));
            }
        }
        k = k + 1;
    }
    let ghost views_pre = Seq::new(segs@.len(), |i: int| segs@[i]@);
    let ghost cur_pre = current@;
    segs.push(current);
    proof {
        let views = Seq::new(segs@.len(), |i: int| segs@[i]@);
        assert(views =~= views_pre.push(cur_pre));
        lemma_slash_free_push(views_pre, cur_pre);
        assert(path@.subrange(0, len as int) =~= path@);
    }
    segs
}

/// Extending the segment under construction extends the join by one
/// character.
proof fn lemma_joined_push_last(views: Seq<Seq<char>>, cur: Seq<char>, c: char)
    ensures
        joined(views.push(cur.push(c))) == joined(views.push(cur)).push(c),
    decreases views.len(),
{
    if views.len() == 0 {
        assert(joined(views.push(cur.push(c))) == cur.push(c));
        assert(joined(views.push(cur)) == cur);
    } else {
        assert(views.push(cur.push(c)).drop_last() =~= views);
        assert(views.push(cur).drop_last() =~= views);
        assert(joined(views.push(cur.push(c))) == joined(views) + seq!['/'] + cur.push(c));
        assert(joined(views.push(cur)) == joined(views) + seq!['/'] + cur);
        assert(joined(views) + seq!['/'] + cur.push(c) =~= (joined(views) + seq!['/']
            + cur).push(c));
    }
}

/// Whether a pattern matches the segments, and the parameter captures, in
/// order, if it does.
pub open spec fn spec_match(pattern: Seq<PatSeg>, segs: Seq<Seq<char>>) -> Option<Seq<Seq<char>>>
    decreases pattern.len(),
{
    if pattern.len() != segs.len() {
        None
    } else if pattern.len() == 0 {
        Some(Seq::empty())
    } else {
        let rest = spec_match(pattern.drop_last(), segs.drop_last());
        match rest {
            None => None,
            Some(caps) => match pattern.last() {
                PatSeg::Literal(l) => if l@ == segs.last() {
                    Some(caps)
                } else {
                    None
                },
                PatSeg::Param => Some(caps.push(segs.last())),
            },
        }
    }
}

/// Match a pattern against path segments, capturing parameters in order.
pub fn match_segments(pattern: &Vec<PatSeg>, segs: &Vec<String>) -> (r: Option<Vec<String>>)
    ensures
        match r {
            Some(caps) => Some(Seq::new(caps@.len(), |i: int| caps@[i]@)) == spec_match(
                pattern@,
                Seq::new(segs@.len(), |i: int| segs@[i]@),
            ),
            None => spec_match(pattern@, Seq::new(segs@.len(), |i: int| segs@[i]@)) is None,
        },
{
    let ghost all_pat = pattern@;
    let ghost all_segs = Seq::new(segs@.len(), |i: int| segs@[i]@);
    if pattern.len() != segs.len() {
        return None;
    }
    let n = pattern.len();
    let mut caps: Vec<String> = Vec::new();
    let mut k: usize = 0;
    while k < n
        invariant
            all_pat == pattern@,
            all_segs == Seq::new(segs@.len(), |i: int| segs@[i]@),
            n == pattern@.len(),
            n == segs@.len(),
            k <= n,
            spec_match(all_pat.subrange(0, k as int), all_segs.subrange(0, k as int)) == Some(
                Seq::new(caps@.len(), |i: int| caps@[i]@),
            ),
        decreases n - k,
    {
        let ghost caps_pre = Seq::new(caps@.len(), |i: int| caps@[i]@);
        match &pattern[k] {
            PatSeg::Literal(l) => {
                if !str_eq(l.as_str(), segs[k].as_str()) {
                    proof {
                        lemma_match_prefix_fail(all_pat, all_segs, k as int);
                    }
                    return None;
                }
            },
            PatSeg::Param => {
                caps.push(segs[k].clone());
            },
        }
        k = k + 1;
        proof {
            let p = all_pat.subrange(0, k as int);
            let s = all_segs.subrange(0, k as int);
            assert(p.drop_last() =~= all_pat.subrange(0, k as int - 1));
            assert(s.drop_last() =~= all_segs.subrange(0, k as int - 1));
            assert(p.last() == all_pat[k as int - 1]);
            assert(s.last() == all_segs[k as int - 1]);
            assert(Seq::new(caps@.len(), |i: int| caps@[i]@) =~= (match all_pat[k as int - 1] {
                PatSeg::Param => caps_pre.push(all_segs[k as int - 1]),
                PatSeg::Literal(_) => caps_pre,
            }));
        }
    }
    proof {
        assert(all_pat.subrange(0, n as int) =~= all_pat);
        assert(all_segs.subrange(0, n as int) =~= all_segs);
    }
    Some(caps)
}

/// A mismatch at position `k` refuses the whole pattern.
proof fn lemma_match_prefix_fail(pattern: Seq<PatSeg>, segs: Seq<Seq<char>>, k: int)
    requires
        pattern.len() == segs.len(),
        0 <= k < pattern.len(),
        pattern[k] is Literal,
        !((match pattern[k] {
            PatSeg::Literal(l) => l@,
            PatSeg::Param => Seq::empty(),
        }) == segs[k]),
    ensures
        spec_match(pattern, segs) is None,
    decreases pattern.len(),
{
    if pattern.len() > 0 {
        if k == pattern.len() - 1 {
        } else {
            assert(pattern.drop_last()[k] == pattern[k]);
            lemma_match_prefix_fail(pattern.drop_last(), segs.drop_last(), k);
        }
    }
}

/// Index of the first declared route whose method and pattern accept the
/// request, with its captures.
pub open spec fn spec_find_route(
    entries: Seq<RouteEntry>,
    method: Method,
    segs: Seq<Seq<char>>,
    n: int,
) -> Option<(int, Seq<Seq<char>>)>
    decreases n,
{
    if n <= 0 {
        None
    } else {
        match spec_find_route(entries, method, segs, n - 1) {
            Some(hit) => Some(hit),
            None => if entries[n - 1].method == method {
                match spec_match(entries[n - 1].pattern@, segs) {
                    Some(caps) => Some((n - 1, caps)),
                    None => None,
                }
            } else {
                None
            },
        }
    }
}

/// Look a request up in the route table: the first entry, in declaration
/// order, whose method and pattern accept it.
pub fn find_route<'a>(entries: &'a Vec<RouteEntry>, method: Method, segs: &Vec<String>) -> (r:
    Option<(usize, Vec<String>)>)
    ensures
        match r {
            Some((idx, caps)) => idx < entries@.len() && spec_find_route(
                entries@,
                method,
                Seq::new(segs@.len(), |i: int| segs@[i]@),
                entries@.len() as int,
            ) == Some((idx as int, Seq::new(caps@.len(), |i: int| caps@[i]@))),
            None => spec_find_route(
                entries@,
                method,
                Seq::new(segs@.len(), |i: int| segs@[i]@),
                entries@.len() as int,
            ) is None,
        },
{
    let ghost segviews = Seq::new(segs@.len(), |i: int| segs@[i]@);
    let n = entries.len();
    let mut k: usize = 0;
    while k < n
        invariant
            n == entries@.len(),
            k <= n,
            segviews == Seq::new(segs@.len(), |i: int| segs@[i]@),
            spec_find_route(entries@, method, segviews, k as int) is None,
        decreases n - k,
    {
        let entry = &entries[k];
        if method_eq(entry.method, method) {
            match match_segments(&entry.pattern, segs) {
                Some(caps) => {
                    proof {
                        lemma_find_route_stable(entries@, method, segviews, k as int + 1,
                            n as int);
                    }
                    return Some((k, caps));
                },
                None => {},
            }
        }
        k = k + 1;
    }
    None
}

/// Once a route is found among the first `n`, looking further changes
/// nothing.
proof fn lemma_find_route_stable(
    entries: Seq<RouteEntry>,
    method: Method,
    segs: Seq<Seq<char>>,
    n: int,
    m: int,
)
    requires
        0 <= n <= m,
        spec_find_route(entries, method, segs, n) is Some,
    ensures
        spec_find_route(entries, method, segs, m) == spec_find_route(entries, method, segs, n),
    decreases m,
{
    if m > n {
        lemma_find_route_stable(entries, method, segs, n, m - 1);
    }
}

/// Method equality.
fn method_eq(a: Method, b: Method) -> (r: bool)
    ensures
        r == (a == b),
{
    match (a, b) {
        (Method::Get, Method::Get) => true,
        (Method::Post, Method::Post) => true,
        _ => false,
    }
}


/// The pattern segment is a literal spelt `s`.
pub open spec fn seg_is_lit(p: PatSeg, s: Seq<char>) -> bool {
    match p {
        PatSeg::Literal(l) => l@ == s,
        PatSeg::Param => false,
    }
}

/// A route of the table: the given role requirement and handler, the
/// standard body cap before it and the three background jobs after it.
pub open spec fn standard_route(r: Route, required: Option<Role>, h: Handler) -> bool {
    &&& r.required_role == required
    &&& r.handler == h
    &&& r.request_mw@ =~= seq![ReqMiddleware::BodySizeLimit(128)]
    &&& r.response_mw@ =~= seq![
        RespMiddleware::QueueStatusReport,
        RespMiddleware::QueueCount,
        RespMiddleware::QueueSleepNotify,
    ]
}

/// The declared routes: the landing page, login, user lookup by
/// identifier, and user creation — the last behind an administrator
/// credential. Every route caps request bodies and queues the three
/// background jobs over its response.
///
/// There is deliberately no body-decompression middleware: middlewares
/// here read the request and produce read-only results, they do not
/// rewrite the body, so a compressed body is decoded by the transport
/// before the request enters the chain.
pub fn make_routes() -> (entries: Vec<RouteEntry>)
    ensures
        entries@.len() == 4,
        entries@[0].method == Method::Get && standard_route(
            entries@[0].route,
            None,
            Handler::Home,
        ),
        entries@[1].method == Method::Post && standard_route(
            entries@[1].route,
            None,
            Handler::Login,
        ),
        entries@[2].method == Method::Get && standard_route(
            entries@[2].route,
            None,
            Handler::GetUser,
        ),
        entries@[3].method == Method::Post && standard_route(
            entries@[3].route,
            Some(Role::Admin),
            Handler::CreateUser,
        ),
        entries@[0].pattern@.len() == 2 && seg_is_lit(entries@[0].pattern@[0], Seq::empty())
            && seg_is_lit(entries@[0].pattern@[1], Seq::empty()),
        entries@[1].pattern@.len() == 2 && seg_is_lit(entries@[1].pattern@[0], Seq::empty())
            && seg_is_lit(entries@[1].pattern@[1], "login"@),
        entries@[2].pattern@.len() == 3 && seg_is_lit(entries@[2].pattern@[0], Seq::empty())
            && seg_is_lit(entries@[2].pattern@[1], "user"@) && entries@[2].pattern@[2] is Param,
        entries@[3].pattern@.len() == 2 && seg_is_lit(entries@[3].pattern@[0], Seq::empty())
            && seg_is_lit(entries@[3].pattern@[1], "user"@),
{
    let mut entries: Vec<RouteEntry> = Vec::new();
    // GET /
    let mut pattern: Vec<PatSeg> = Vec::new();
    pattern.push(PatSeg::Literal(String::new()));
    pattern.push(PatSeg::Literal(String::new()));
    entries.push(RouteEntry {
        method: Method::Get,
        pattern,
        route: Route {
            required_role: None,
            request_mw: body_cap(),
            response_mw: response_jobs(),
            handler: Handler::Home,
        },
    });
    // POST /login
    let mut pattern: Vec<PatSeg> = Vec::new();
    pattern.push(PatSeg::Literal(String::new()));
    pattern.push(PatSeg::Literal("login".to_owned()));
    entries.push(RouteEntry {
        method: Method::Post,
        pattern,
        route: Route {
            required_role: None,
            request_mw: body_cap(),
            response_mw: response_jobs(),
            handler: Handler::Login,
        },
    });
    // GET /user/{id}
    let mut pattern: Vec<PatSeg> = Vec::new();
    pattern.push(PatSeg::Literal(String::new()));
    pattern.push(PatSeg::Literal("user".to_owned()));
    pattern.push(PatSeg::Param);
    entries.push(RouteEntry {
        method: Method::Get,
        pattern,
        route: Route {
            required_role: None,
            request_mw: body_cap(),
            response_mw: response_jobs(),
            handler: Handler::GetUser,
        },
    });
    // POST /user
    let mut pattern: Vec<PatSeg> = Vec::new();
    pattern.push(PatSeg::Literal(String::new()));
    pattern.push(PatSeg::Literal("user".to_owned()));
    entries.push(RouteEntry {
        method: Method::Post,
        pattern,
        route: Route {
            required_role: Some(Role::Admin),
            request_mw: body_cap(),
            response_mw: response_jobs(),
            handler: Handler::CreateUser,
        },
    });
    entries
}

/// The request-body cap every route carries.
fn body_cap() -> (mws: Vec<ReqMiddleware>)
    ensures
        mws@ =~= seq![ReqMiddleware::BodySizeLimit(128)],
{
    let mut mws: Vec<ReqMiddleware> = Vec::new();
    mws.push(ReqMiddleware::BodySizeLimit(128));
    proof {
        assert(mws@ =~= seq![ReqMiddleware::BodySizeLimit(128)]);
    }
    mws
}

/// The background jobs every route queues over its response.
fn response_jobs() -> (mws: Vec<RespMiddleware>)
    ensures
        mws@ =~= seq![
            RespMiddleware::QueueStatusReport,
            RespMiddleware::QueueCount,
            RespMiddleware::QueueSleepNotify,
        ],
{
    let mut mws: Vec<RespMiddleware> = Vec::new();
    mws.push(RespMiddleware::QueueStatusReport);
    mws.push(RespMiddleware::QueueCount);
    mws.push(RespMiddleware::QueueSleepNotify);
    proof {
        assert(mws@ =~= seq![
            RespMiddleware::QueueStatusReport,
            RespMiddleware::QueueCount,
            RespMiddleware::QueueSleepNotify,
        ]);
    }
    mws
}


/// Where the last segment sits inside the join: after the final separator.
proof fn lemma_joined_last(segs: Seq<Seq<char>>)
    requires
        segs.len() >= 2,
    ensures
        joined(segs).len() == joined(segs.drop_last()).len() + 1 + segs.last().len(),
        joined(segs)[joined(segs).len() - segs.last().len() - 1] == '/',
        forall|k: int|
            joined(segs).len() - segs.last().len() <= k < joined(segs).len()
                ==> joined(segs)[k] == segs.last()[k - (joined(segs).len()
                - segs.last().len())],
        joined(segs).subrange(0, joined(segs).len() - segs.last().len() - 1) == joined(
            segs.drop_last(),
        ),
{
    let pre = joined(segs.drop_last());
    assert(joined(segs) == pre + seq!['/'] + segs.last());
    assert(joined(segs).subrange(0, pre.len() as int) =~= pre);
}

/// Splitting is the unique decomposition: no two different slash-free
/// segment lists join to the same path.
pub proof fn lemma_split_unique(s1: Seq<Seq<char>>, s2: Seq<Seq<char>>)
    requires
        s1.len() >= 1,
        s2.len() >= 1,
        slash_free(s1),
        slash_free(s2),
        joined(s1) == joined(s2),
    ensures
        s1 == s2,
    decreases s1.len(),
{
    let j = joined(s1);
    if s1.len() == 1 && s2.len() == 1 {
        assert(s1 =~= s2);
    } else if s1.len() == 1 {
        // j would be slash-free, yet s2's join holds a separator
        lemma_joined_last(s2);
        assert(j[j.len() - s2.last().len() - 1] == '/');
        assert(j == s1[0]);
    } else if s2.len() == 1 {
        lemma_joined_last(s1);
        assert(j[j.len() - s1.last().len() - 1] == '/');
        assert(j == s2[0]);
    } else {
        lemma_joined_last(s1);
        lemma_joined_last(s2);
        let p1 = j.len() - s1.last().len() - 1;
        let p2 = j.len() - s2.last().len() - 1;
        assert(p1 == p2) by {
            if p1 < p2 {
                assert(j[p2] == s1.last()[p2 - (p1 + 1)]);
            }
            if p2 < p1 {
                assert(j[p1] == s2.last()[p1 - (p2 + 1)]);
            }
        }
        assert forall|m: int| 0 <= m < s1.last().len() implies s1.last()[m] == s2.last()[m] by {
            assert(j[p1 + 1 + m] == s1.last()[m]);
            assert(j[p2 + 1 + m] == s2.last()[m]);
        }
        assert(s1.last() =~= s2.last());
        assert(joined(s1.drop_last()) == joined(s2.drop_last()));
        assert(slash_free(s1.drop_last())) by {
            assert forall|i: int, k: int|
                0 <= i < s1.drop_last().len() && 0 <= k < s1.drop_last()[i].len()
                implies #[trigger] s1.drop_last()[i][k] != '/' by {
                assert(s1.drop_last()[i] == s1[i]);
            }
        }
        assert(slash_free(s2.drop_last())) by {
            assert forall|i: int, k: int|
                0 <= i < s2.drop_last().len() && 0 <= k < s2.drop_last()[i].len()
                implies #[trigger] s2.drop_last()[i][k] != '/' by {
                assert(s2.drop_last()[i] == s2[i]);
            }
        }
        lemma_split_unique(s1.drop_last(), s2.drop_last());
        assert(s1 =~= s1.drop_last().push(s1.last()));
        assert(s2 =~= s2.drop_last().push(s2.last()));
    }
}

/// What a route lookup answers: the first entry, in declaration order,
/// whose method and pattern accept the request; absence means no entry
/// accepts it.
pub proof fn lemma_find_route_meaning(
    entries: Seq<RouteEntry>,
    method: Method,
    segs: Seq<Seq<char>>,
    n: int,
)
    requires
        0 <= n <= entries.len(),
    ensures
        match spec_find_route(entries, method, segs, n) {
            Some((i, caps)) => 0 <= i < n && entries[i].method == method && spec_match(
                entries[i].pattern@,
                segs,
            ) == Some(caps) && (forall|k: int|
                0 <= k < i ==> !(#[trigger] entries[k].method == method && spec_match(
                    entries[k].pattern@,
                    segs,
                ) is Some)),
            None => forall|k: int|
                0 <= k < n ==> !(#[trigger] entries[k].method == method && spec_match(
                    entries[k].pattern@,
                    segs,
                ) is Some),
        },
    decreases n,
{
    if n > 0 {
        lemma_find_route_meaning(entries, method, segs, n - 1);
    }
}

} // verus!
