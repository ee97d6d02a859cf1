use vstd::prelude::*;
use vstd::string::StringSliceAdditionalSpecFns;

use crate::bytes::bytes_eq;
use crate::rate_limit::{admits, after_check, RateLimiter};
use crate::request::{
    contains_parent_component, has_parent_component, line_tokens, parse_request_line, resolve,
    resolve_path,
};
use crate::response::{
    count_view, error_response, error_view, preflight_response, preflight_view, too_many_requests,
    too_many_view, visitor_count_response, Response, ResponseView,
};
use crate::visitors::{bumped, VisitorCounter};

verus! {

/// What the handler of one connection is to do next.
pub enum Outcome {
    /// The request was empty: close without answering.
    Silent,
    /// Write this response.
    Reply(Response),
    /// Read the file at this path: answer with its contents when it can be
    /// read, else as for `NotFound`.
    ServeFile(Vec<u8>),
    /// Answer with the not-found response.
    NotFound,
}

/// An outcome with its bytes as sequences.
pub enum OutcomeView {
    Silent,
    Reply(ResponseView),
    ServeFile(Seq<u8>),
    NotFound,
}

impl View for Outcome {
    type V = OutcomeView;

    open spec fn view(&self) -> OutcomeView {
        match self {
            Outcome::Silent => OutcomeView::Silent,
            Outcome::Reply(r) => OutcomeView::Reply(r@),
            Outcome::ServeFile(p) => OutcomeView::ServeFile(p@),
            Outcome::NotFound => OutcomeView::NotFound,
        }
    }
}

/// The reserved path that reports the visitor count.
pub open spec fn visitor_path() -> Seq<u8> {
    "/visitor-count".spec_bytes()
}

/// The decision for a well-formed request line, once the rate limiter has
/// ruled, given the visitor count before the request.
pub open spec fn route(method: Seq<u8>, path: Seq<u8>, admitted: bool, count: u64) -> OutcomeView {
    if !admitted {
        OutcomeView::Reply(too_many_view())
    } else if path == visitor_path() {
        if count < u64::MAX {
            OutcomeView::Reply(count_view((count + 1) as u64))
        } else {
            OutcomeView::Reply(error_view(500, "Internal Server Error"))
        }
    } else if method == "OPTIONS".spec_bytes() {
        OutcomeView::Reply(preflight_view())
    } else if method != "GET".spec_bytes() {
        OutcomeView::Reply(error_view(405, "Method Not Allowed"))
    } else if has_parent_component(resolve(path)) {
        OutcomeView::NotFound
    } else {
        OutcomeView::ServeFile(resolve(path))
    }
}

/// Whether the request has a method and a path.
pub open spec fn well_formed(request: Seq<u8>) -> bool {
    request.len() > 0 && line_tokens(request).len() >= 2
}

/// The decision for a raw request.
pub open spec fn respond(request: Seq<u8>, admitted: bool, count: u64) -> OutcomeView {
    if request.len() == 0 {
        OutcomeView::Silent
    } else if line_tokens(request).len() < 2 {
        OutcomeView::Reply(error_view(400, "Bad Request"))
    } else {
        route(line_tokens(request)[0], line_tokens(request)[1], admitted, count)
    }
}

/// Whether the request is well formed and counts a visit when admitted.
pub open spec fn counts_visit(request: Seq<u8>) -> bool {
    well_formed(request) && line_tokens(request)[1] == visitor_path()
}

/// The state that the handlers of all connections share.
pub struct Server {
    pub limiter: RateLimiter,
    pub visitors: VisitorCounter,
}

impl Server {
    /// A server that has seen no request.
    pub fn new() -> (r: Server)
        ensures
            forall|c: Seq<u8>| #[trigger] r.limiter.history(c) == Seq::<u64>::empty(),
            r.visitors.value() == 0,
    {
        Server { limiter: RateLimiter::new(), visitors: VisitorCounter::new() }
    }

    /// Decides the answer to the raw request `request` from `client`,
    /// received at `now` (milliseconds). A well-formed request is checked
    /// against the rate limiter; an admitted request to the visitor-count
    /// path counts a visit whatever its method.
    pub fn handle(&mut self, request: &[u8], client: &[u8], now: u64) -> (r: Outcome)
        ensures
            r@ == respond(
                request@,
                admits(old(self).limiter.history(client@), now),
                old(self).visitors.value(),
            ),
            forall|c: Seq<u8>| #[trigger] final(self).limiter.history(c) == if well_formed(request@)
                && c == client@ {
                after_check(old(self).limiter.history(c), now)
            } else {
                old(self).limiter.history(c)
            },
            final(self).visitors.value() == if counts_visit(request@) && admits(
                old(self).limiter.history(client@),
                now,
            ) {
                bumped(old(self).visitors.value())
            } else {
                old(self).visitors.value()
            },
    {
        if request.len() == 0 {
            return Outcome::Silent;
        }
        let line = match parse_request_line(request) {
            Some(line) => line,
            None => {
                return Outcome::Reply(error_response(400, "Bad Request"));
            },
        };
        if !self.limiter.allow(client, now) {
            return Outcome::Reply(too_many_requests());
        }
        if bytes_eq(line.path.as_slice(), "/visitor-count".as_bytes()) {
            return match self.visitors.increment_and_get() {
                Some(count) => Outcome::Reply(visitor_count_response(count)),
                None => Outcome::Reply(error_response(500, "Internal Server Error")),
            };
        }
        if bytes_eq(line.method.as_slice(), "OPTIONS".as_bytes()) {
            return Outcome::Reply(preflight_response());
        }
        if !bytes_eq(line.method.as_slice(), "GET".as_bytes()) {
            return Outcome::Reply(error_response(405, "Method Not Allowed"));
        }
        let file = resolve_path(line.path.as_slice());
        if contains_parent_component(file.as_slice()) {
            Outcome::NotFound
        } else {
            Outcome::ServeFile(file)
        }
    }
}

/// The bytes of an ASCII literal are its characters.
proof fn lemma_ascii_literal(s: &str)
    requires
        vstd::utf8::is_ascii_chars(s@),
    ensures
        s.spec_bytes().len() == s@.len(),
        forall|i: int| 0 <= i < s@.len() ==> #[trigger] s.spec_bytes()[i] == s@[i] as u8,
{
    vstd::utf8::is_ascii_chars_encode_utf8(s@);
}

/// A request path that starts with `/` and has a parent-directory component
/// is never served from disk: an admitted `GET` of it is answered as not
/// found, the very answer that a missing file gets, so whether anything
/// exists at the traversed location makes no difference.
pub proof fn lemma_traversal_is_not_found(path: Seq<u8>, count: u64)
    requires
        path.len() > 0,
        path[0] == 47,
        has_parent_component(path),
    ensures
        has_parent_component(resolve(path)),
        route("GET".spec_bytes(), path, true, count) == OutcomeView::NotFound,
{
    reveal_strlit("/");
    reveal_strlit("public_html");
    reveal_strlit("OPTIONS");
    reveal_strlit("GET");
    lemma_ascii_literal("/");
    lemma_ascii_literal("public_html");
    lemma_ascii_literal("OPTIONS");
    lemma_ascii_literal("GET");
    let i = choose|i: int| crate::request::parent_at(path, i);
    reveal_strlit("/visitor-count");
    lemma_ascii_literal("/visitor-count");
    assert(path != visitor_path()) by {
        if path == visitor_path() {
            assert(path[i] == 46);
        }
    }
    assert(path != "/".spec_bytes()) by {
        if path == "/".spec_bytes() {
            assert(path.len() == 1);
        }
    }
    let prefix = "public_html".spec_bytes();
    let full = resolve(path);
    assert(full == prefix + path);
    assert(prefix.len() == 11);
    assert(i > 0);
    assert(crate::request::parent_at(full, i + 11)) by {
        assert(full[i + 11] == path[i]);
        assert(full[i + 12] == path[i + 1]);
        assert(full[i + 10] == path[i - 1]);
        if i + 2 < path.len() {
            assert(full[i + 13] == path[i + 2]);
        }
    }
    assert("GET".spec_bytes() != "OPTIONS".spec_bytes()) by {
        assert("GET".spec_bytes().len() != "OPTIONS".spec_bytes().len());
    }
}

/// A CORS preflight to any path but the visitor-count path is answered,
/// when admitted, with `204`, no body, and all three CORS headers.
pub proof fn lemma_preflight_answer(path: Seq<u8>, count: u64)
    requires
        path != visitor_path(),
    ensures
        route("OPTIONS".spec_bytes(), path, true, count) == OutcomeView::Reply(preflight_view()),
        preflight_view().status == 204,
        preflight_view().body.len() == 0,
        preflight_view().cors_methods,
{
}

/// A non-empty request whose first line has fewer than two tokens gets
/// `400`, whatever the rate limiter and the counter hold.
pub proof fn lemma_short_line_is_bad_request(request: Seq<u8>, admitted: bool, count: u64)
    requires
        request.len() > 0,
        line_tokens(request).len() < 2,
    ensures
        respond(request, admitted, count) == OutcomeView::Reply(error_view(400, "Bad Request")),
        error_view(400, "Bad Request").status == 400,
{
}

/// The visitor-count path is routed before any method check: an admitted
/// request to it, with any method, counts a visit and answers `200` with
/// the new count.
pub proof fn lemma_visitor_count_any_method(method: Seq<u8>, count: u64)
    requires
        count < u64::MAX,
    ensures
        route(method, visitor_path(), true, count) == OutcomeView::Reply(
            count_view((count + 1) as u64),
        ),
        count_view((count + 1) as u64).status == 200,
        bumped(count) == count + 1,
{
}

/// Any method but `GET` and `OPTIONS`, on any path but the visitor-count
/// path, is answered `405` when admitted.
pub proof fn lemma_other_methods_not_allowed(method: Seq<u8>, path: Seq<u8>, count: u64)
    requires
        path != visitor_path(),
        method != "GET".spec_bytes(),
        method != "OPTIONS".spec_bytes(),
    ensures
        route(method, path, true, count) == OutcomeView::Reply(error_view(405, "Method Not Allowed")),
{
}

/// The visitor count before the `n`-th of a run of requests handled one
/// after another, given whether the rate limiter admitted each.
pub open spec fn count_before(count: u64, requests: Seq<Seq<u8>>, admitted: Seq<bool>, n: nat) -> u64
    decreases n,
{
    if n == 0 {
        count
    } else {
        let c = count_before(count, requests, admitted, (n - 1) as nat);
        if counts_visit(requests[n - 1]) && admitted[n - 1] {
            bumped(c)
        } else {
            c
        }
    }
}

/// No visit is lost or counted twice across requests: `n` admitted
/// requests to the visitor-count path, handled one after another under the
/// shared lock in any order, leave the count exactly `n` above where it
/// started, and the `i`-th of them is answered with `start + i + 1`, so
/// each value from `start + 1` to `start + n` is handed out once.
pub proof fn lemma_visits_accumulate(start: u64, requests: Seq<Seq<u8>>, admitted: Seq<bool>)
    requires
        requests.len() == admitted.len(),
        start + requests.len() <= u64::MAX,
        forall|i: int| 0 <= i < requests.len() ==> #[trigger] counts_visit(requests[i]),
        forall|i: int| 0 <= i < admitted.len() ==> #[trigger] admitted[i],
    ensures
        count_before(start, requests, admitted, requests.len()) == start + requests.len(),
        forall|i: int|
            0 <= i < requests.len() ==> #[trigger] respond(
                requests[i],
                admitted[i],
                count_before(start, requests, admitted, i as nat),
            ) == OutcomeView::Reply(count_view((start + i + 1) as u64)),
{
    lemma_count_before(start, requests, admitted, requests.len());
    assert forall|i: int| 0 <= i < requests.len() implies #[trigger] respond(
        requests[i],
        admitted[i],
        count_before(start, requests, admitted, i as nat),
    ) == OutcomeView::Reply(count_view((start + i + 1) as u64)) by {
        lemma_count_before(start, requests, admitted, i as nat);
        assert(counts_visit(requests[i]));
        assert(admitted[i]);
    }
}

proof fn lemma_count_before(start: u64, requests: Seq<Seq<u8>>, admitted: Seq<bool>, n: nat)
    requires
        n <= requests.len() == admitted.len(),
        start + requests.len() <= u64::MAX,
        forall|i: int| 0 <= i < requests.len() ==> #[trigger] counts_visit(requests[i]),
        forall|i: int| 0 <= i < admitted.len() ==> #[trigger] admitted[i],
    ensures
        count_before(start, requests, admitted, n) == start + n,
    decreases n,
{
    if n > 0 {
        lemma_count_before(start, requests, admitted, (n - 1) as nat);
        assert(counts_visit(requests[n - 1]));
        assert(admitted[n - 1]);
    }
}

} // verus!
