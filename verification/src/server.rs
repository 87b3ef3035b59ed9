//! Serving one request: selecting the route, checking the parameters,
//! synthesizing the response, and falling back where that is not possible.

use crate::entity::ApiView;
use crate::entity::Response;
use crate::entity::ResponseView;
use crate::entity::Server;
use crate::entity::ServerView;
use crate::query::decode_query;
use crate::request::RequestLine;
use crate::request::RequestLineView;
use crate::route::addresses;
use crate::route::find_route;
use crate::route::first_match;
use crate::route::lemma_first_match;
use crate::route::lemma_first_match_requests;
use crate::route::query_accepted;
use crate::route::query_matches;
use crate::text::decimal;
use crate::wire::cors_header;
use crate::wire::cors_text;
use crate::wire::lemma_status_at;
use crate::wire::wire_text;
use crate::wire::write_response;
use vstd::prelude::*;

pub use crate::query::parse_query_string;

verus! {

/// What is sent back for one request.
#[derive(Debug, Clone)]
pub struct Reply {
    /// The status code on the status line of `text`.
    pub status: u16,
    /// The seconds to wait before `text` is sent.
    pub timeout: u64,
    /// The complete response.
    pub text: String,
    /// Whether the file behind the selected route could not be read.
    pub file_missing: bool,
}

/// A reply with its text as a character sequence.
pub struct ReplyView {
    pub status: u16,
    pub timeout: u64,
    pub text: Seq<char>,
    pub file_missing: bool,
}

impl View for Reply {
    type V = ReplyView;

    open spec fn view(&self) -> ReplyView {
        ReplyView {
            status: self.status,
            timeout: self.timeout,
            text: self.text@,
            file_missing: self.file_missing,
        }
    }
}

/// Which route a request selects, and whether its parameters fail what that
/// route declares.
#[derive(Debug, Clone, Copy)]
pub struct Plan {
    /// The position of the selected route among the routes of the server.
    pub route: Option<usize>,
    /// Whether a route is selected and does not accept the parameters.
    pub mismatch: bool,
}

/// A plan with the position as a mathematical integer.
pub struct PlanView {
    pub route: Option<int>,
    pub mismatch: bool,
}

impl View for Plan {
    type V = PlanView;

    open spec fn view(&self) -> PlanView {
        PlanView {
            route: match self.route {
                Some(i) => Some(i as int),
                None => None,
            },
            mismatch: self.mismatch,
        }
    }
}

/// The response to a request whose parameters are not those declared.
pub open spec fn mismatch_text(cors: bool) -> Seq<char> {
    wire_text(400, cors_text(cors), "text/plain"@, "Parameters mismatch"@)
}

/// The response to a request that cannot be served; `error` is its body.
pub open spec fn not_found_text(cors: bool, error: Seq<char>) -> Seq<char> {
    wire_text(404, cors_text(cors), "text/plain"@, error)
}

/// The reply to a request that selects a route with the template `response`.
/// In this order: parameters that are not those declared give 400, whatever
/// else holds; a payload that cannot be had gives 404 with the body `error`;
/// otherwise the payload is served with 200. In each case the reply waits
/// for the route's timeout.
pub open spec fn matched_reply(
    cors: bool,
    error: Seq<char>,
    mismatch: bool,
    response: ResponseView,
    file: Option<Seq<char>>,
) -> ReplyView {
    let file_missing = response.pending() && file is None;
    if mismatch {
        ReplyView {
            status: 400,
            timeout: response.timeout,
            text: mismatch_text(cors),
            file_missing,
        }
    } else {
        match response.wire(file, cors_text(cors)) {
            Some(text) => ReplyView { status: 200, timeout: response.timeout, text, file_missing },
            None => ReplyView {
                status: 404,
                timeout: response.timeout,
                text: not_found_text(cors, error),
                file_missing,
            },
        }
    }
}

/// The reply to a request that selects no route.
pub open spec fn unmatched_reply(cors: bool, error: Seq<char>) -> ReplyView {
    ReplyView { status: 404, timeout: 0, text: not_found_text(cors, error), file_missing: false }
}

impl ServerView {
    /// The route that a request selects: the first that it addresses.
    pub open spec fn route_of(self, line: RequestLineView) -> Option<int> {
        first_match(self.base, self.apis, line.method, line.path)
    }

    /// What a request selects.
    pub open spec fn plan(self, line: RequestLineView) -> PlanView {
        PlanView {
            route: self.route_of(line),
            mismatch: match self.route_of(line) {
                Some(i) => !query_accepted(self.apis[i].request.query, decode_query(line.query)),
                None => false,
            },
        }
    }

    /// The path of the file that has to be read before the request is served.
    pub open spec fn pending_file(self, line: RequestLineView) -> Option<Seq<char>> {
        match self.route_of(line) {
            Some(i) => if self.apis[i].response.pending() {
                Some(self.apis[i].response.data)
            } else {
                None
            },
            None => None,
        }
    }

    /// The reply to a request. `file` is what reading the pending file gave.
    pub open spec fn reply(self, line: RequestLineView, file: Option<Seq<char>>) -> ReplyView {
        match self.route_of(line) {
            Some(i) => matched_reply(
                self.cors,
                self.error,
                self.plan(line).mismatch,
                self.apis[i].response,
                file,
            ),
            None => unmatched_reply(self.cors, self.error),
        }
    }

    /// The server after a request: the selected route keeps the contents of
    /// a pending file that was read; nothing else changes.
    pub open spec fn after(self, line: RequestLineView, file: Option<Seq<char>>) -> ServerView {
        match self.route_of(line) {
            Some(i) => ServerView {
                apis: self.apis.update(
                    i,
                    ApiView {
                        request: self.apis[i].request,
                        response: self.apis[i].response.resolved(file),
                    },
                ),
                ..self
            },
            None => self,
        }
    }
}

/// Writes the reply to a request that selects no route.
pub fn reply_unmatched(cors: bool, error: &str) -> (reply: Reply)
    ensures
        reply@ == unmatched_reply(cors, error@),
{
    let header = cors_header(cors);
    Reply {
        status: 404,
        timeout: 0,
        text: write_response(404, header.as_str(), "text/plain", error),
        file_missing: false,
    }
}

/// Writes the reply to a request that selects a route, and keeps in
/// `response` the contents of a pending file that was read. `file` is what
/// reading that file gave, `None` where it could not be read.
pub fn reply_matched(
    cors: bool,
    error: &str,
    mismatch: bool,
    response: &mut Response,
    file: Option<String>,
) -> (reply: Reply)
    ensures
        reply@ == matched_reply(cors, error@, mismatch, old(response)@, file.deep_view()),
        final(response)@ == old(response)@.resolved(file.deep_view()),
{
    let header = cors_header(cors);
    let timeout = response.timeout;
    let file_missing = match (response.is_file, &file) {
        (Some(true), None) => true,
        _ => false,
    };
    let body = response.synthesize(file, header.as_str());
    if mismatch {
        Reply {
            status: 400,
            timeout,
            text: write_response(400, header.as_str(), "text/plain", "Parameters mismatch"),
            file_missing,
        }
    } else {
        match body {
            Some(text) => Reply { status: 200, timeout, text, file_missing },
            None => Reply {
                status: 404,
                timeout,
                text: write_response(404, header.as_str(), "text/plain", error),
                file_missing,
            },
        }
    }
}

impl Server {
    /// Selects the route of a request and checks its parameters.
    pub fn plan(&self, line: &RequestLine) -> (plan: Plan)
        ensures
            plan@ == self@.plan(line@),
    {
        let found = find_route(
            self.base.as_str(),
            &self.apis,
            line.method.as_str(),
            line.path.as_str(),
        );
        proof {
            lemma_first_match(self@.base, self@.apis, line@.method, line@.path);
        }
        match found {
            Some(i) => {
                let params = parse_query_string(line.query.as_str());
                let accepted = query_matches(&self.apis[i].request.query, &params);
                Plan { route: Some(i), mismatch: !accepted }
            },
            None => Plan { route: None, mismatch: false },
        }
    }

    /// The path of the file that has to be read before `line` is served, if
    /// there is one.
    pub fn pending_file(&self, line: &RequestLine) -> (path: Option<String>)
        ensures
            path.deep_view() == self@.pending_file(line@),
    {
        let found = find_route(
            self.base.as_str(),
            &self.apis,
            line.method.as_str(),
            line.path.as_str(),
        );
        proof {
            lemma_first_match(self@.base, self@.apis, line@.method, line@.path);
        }
        match found {
            Some(i) => {
                self.apis[i].response.pending_file()
            },
            None => None,
        }
    }

    /// Serves one request. `file` is what reading the file named by
    /// `pending_file` gave, `None` where it could not be read or none was to
    /// be read.
    pub fn respond(&mut self, line: &RequestLine, file: Option<String>) -> (reply: Reply)
        ensures
            reply@ == old(self)@.reply(line@, file.deep_view()),
            final(self)@ == old(self)@.after(line@, file.deep_view()),
    {
        let plan = self.plan(line);
        proof {
            lemma_first_match(self@.base, self@.apis, line@.method, line@.path);
        }
        match plan.route {
            Some(i) => {
                let reply = reply_matched(
                    self.cors,
                    self.error.as_str(),
                    plan.mismatch,
                    &mut self.apis[i].response,
                    file,
                );
                assert(self@.apis =~= old(self)@.apis.update(
                    i as int,
                    ApiView {
                        request: old(self)@.apis[i as int].request,
                        response: old(self)@.apis[i as int].response.resolved(file.deep_view()),
                    },
                ));
                reply
            },
            None => reply_unmatched(self.cors, self.error.as_str()),
        }
    }
}

/// Every reply is a complete response under the server's header block, and
/// the status on its status line is the status of the reply: 200, 400 or 404.
pub proof fn lemma_reply_complete(
    server: ServerView,
    line: RequestLineView,
    file: Option<Seq<char>>,
)
    ensures
        server.reply(line, file).status == 200 || server.reply(line, file).status == 400
            || server.reply(line, file).status == 404,
        exists|mime: Seq<char>, body: Seq<char>|
            server.reply(line, file).text == #[trigger] wire_text(
                server.reply(line, file).status as nat,
                cors_text(server.cors),
                mime,
                body,
            ),
{
    let reply = server.reply(line, file);
    let header = cors_text(server.cors);
    if reply.status == 400 {
        assert(reply.text == wire_text(400, header, "text/plain"@, "Parameters mismatch"@));
    } else if reply.status == 404 {
        assert(reply.text == wire_text(404, header, "text/plain"@, server.error));
    } else {
        let i = server.route_of(line)->0;
        let response = server.apis[i].response;
        assert(reply.text == wire_text(
            200,
            header,
            response.content_type.mime(),
            response.payload(file)->0,
        ));
    }
}

/// Serving a request changes no request pattern, and so not which route any
/// request selects, nor whether its parameters are accepted.
pub proof fn lemma_plan_after(
    server: ServerView,
    line: RequestLineView,
    file: Option<Seq<char>>,
    other: RequestLineView,
)
    ensures
        server.after(line, file).plan(other) == server.plan(other),
        server.after(line, file).apis.len() == server.apis.len(),
{
    let next = server.after(line, file);
    lemma_first_match(server.base, server.apis, line.method, line.path);
    lemma_first_match(server.base, server.apis, other.method, other.path);
    lemma_first_match_requests(server.base, next.apis, server.apis, other.method, other.path);
}

/// Of two routes with the same method and path, no request selects the
/// later one: a request that addresses them selects the first of the two or
/// a route before it, whatever the two answer with.
pub proof fn lemma_first_route_wins(server: ServerView, line: RequestLineView, i: int, j: int)
    requires
        0 <= i < j < server.apis.len(),
        server.apis[i].request.method == server.apis[j].request.method,
        server.apis[i].request.url == server.apis[j].request.url,
    ensures
        server.route_of(line) != Some(j),
        addresses(server.base, server.apis[j].request, line.method, line.path) ==> {
            &&& server.route_of(line) is Some
            &&& server.route_of(line)->0 <= i
        },
{
    lemma_first_match(server.base, server.apis, line.method, line.path);
    if addresses(server.base, server.apis[j].request, line.method, line.path) {
        assert(addresses(server.base, server.apis[i].request, line.method, line.path));
    }
}

/// Parameters that are not those declared give the status 400 and the body
/// `Parameters mismatch`, whatever the route would serve and whether or not
/// its file can be read. That text is neither a successful response nor the
/// fallback.
pub proof fn lemma_mismatch_first(
    server: ServerView,
    line: RequestLineView,
    file: Option<Seq<char>>,
)
    requires
        server.plan(line).mismatch,
    ensures
        server.reply(line, file).status == 400,
        server.reply(line, file).text == mismatch_text(server.cors),
        forall|header: Seq<char>, mime: Seq<char>, body: Seq<char>|
            server.reply(line, file).text != #[trigger] wire_text(200, header, mime, body),
        server.reply(line, file).text != not_found_text(server.cors, server.error),
{
    let text = mismatch_text(server.cors);
    reveal_strlit("0123456789");
    lemma_status_at(400, cors_text(server.cors), "text/plain"@, "Parameters mismatch"@);
    lemma_status_at(404, cors_text(server.cors), "text/plain"@, server.error);
    assert(decimal(400)[2] != decimal(404)[2]);
    assert forall|header: Seq<char>, mime: Seq<char>, body: Seq<char>|
        text != #[trigger] wire_text(200, header, mime, body) by {
        lemma_status_at(200, header, mime, body);
        assert(decimal(400)[0] != decimal(200)[0]);
    }
}

/// Once the file behind a route has been read, the route serves what was
/// read. For every request that selects the route, no file is pending, the
/// reply is the one that the first read gives, whatever a later read would
/// give, and the server changes no more.
pub proof fn lemma_cache_wins(
    server: ServerView,
    line: RequestLineView,
    contents: Seq<char>,
    other: RequestLineView,
    later: Option<Seq<char>>,
)
    requires
        server.pending_file(line) is Some,
        server.route_of(other) == server.route_of(line),
    ensures
        server.after(line, Some(contents)).pending_file(other) is None,
        server.after(line, Some(contents)).reply(other, later) == server.reply(
            other,
            Some(contents),
        ),
        server.after(line, Some(contents)).after(other, later) == server.after(
            line,
            Some(contents),
        ),
{
    let next = server.after(line, Some(contents));
    lemma_first_match(server.base, server.apis, line.method, line.path);
    lemma_plan_after(server, line, Some(contents), other);
    assert(next.after(other, later).apis =~= next.apis);
}

/// Where the file behind the selected route cannot be read, the reply is the
/// fallback with the status 404, unless the parameters are not those
/// declared; the route stays as it was, so a later request reads again.
pub proof fn lemma_missing_file(server: ServerView, line: RequestLineView)
    requires
        server.pending_file(line) is Some,
    ensures
        server.reply(line, None).file_missing,
        !server.plan(line).mismatch ==> server.reply(line, None).status == 404 && server.reply(
            line,
            None,
        ).text == not_found_text(server.cors, server.error),
        server.after(line, None) == server,
{
    lemma_first_match(server.base, server.apis, line.method, line.path);
    assert(server.after(line, None).apis =~= server.apis);
}

/// A request that addresses no route gets the fallback with the status 404.
pub proof fn lemma_no_route(server: ServerView, line: RequestLineView, file: Option<Seq<char>>)
    requires
        forall|i: int|
            0 <= i < server.apis.len() ==> !addresses(
                server.base,
                (#[trigger] server.apis[i]).request,
                line.method,
                line.path,
            ),
    ensures
        server.reply(line, file) == unmatched_reply(server.cors, server.error),
        server.after(line, file) == server,
{
    lemma_first_match(server.base, server.apis, line.method, line.path);
}

/// What a run of requests gives.
pub struct Burst {
    /// The server after the last request.
    pub server: ServerView,
    /// The replies, in the order of the requests.
    pub replies: Seq<ReplyView>,
    /// How often a file was read.
    pub reads: nat,
}

impl ServerView {
    /// Serves the requests `lines` one after another. Before each, the
    /// pending file is read if there is one, and every read gives `disk`.
    pub open spec fn burst(self, lines: Seq<RequestLineView>, disk: Option<Seq<char>>) -> Burst
        decreases lines.len(),
    {
        if lines.len() == 0 {
            Burst { server: self, replies: Seq::empty(), reads: 0 }
        } else {
            let line = lines.first();
            let reading = self.pending_file(line) is Some;
            let file = if reading {
                disk
            } else {
                None
            };
            let rest = self.after(line, file).burst(lines.drop_first(), disk);
            Burst {
                server: rest.server,
                replies: seq![self.reply(line, file)] + rest.replies,
                reads: rest.reads + if reading {
                    1nat
                } else {
                    0nat
                },
            }
        }
    }
}

/// A run of requests for none of which a file is pending reads nothing,
/// changes nothing, and gives each request the reply it would get alone.
pub proof fn lemma_burst_settled(
    server: ServerView,
    lines: Seq<RequestLineView>,
    disk: Option<Seq<char>>,
)
    requires
        forall|k: int| 0 <= k < lines.len() ==> server.pending_file(#[trigger] lines[k]) is None,
    ensures
        server.burst(lines, disk).reads == 0,
        server.burst(lines, disk).server == server,
        server.burst(lines, disk).replies.len() == lines.len(),
        forall|k: int|
            0 <= k < lines.len() ==> #[trigger] server.burst(lines, disk).replies[k]
                == server.reply(lines[k], None),
    decreases lines.len(),
{
    if lines.len() > 0 {
        let line = lines.first();
        let rest = lines.drop_first();
        lemma_first_match(server.base, server.apis, line.method, line.path);
        assert(server.after(line, None).apis =~= server.apis);
        assert forall|k: int| 0 <= k < rest.len() implies server.pending_file(
            #[trigger] rest[k],
        ) is None by {
            assert(rest[k] == lines[k + 1]);
        }
        lemma_burst_settled(server, rest, disk);
        assert forall|k: int| 0 <= k < lines.len() implies #[trigger] server.burst(
            lines,
            disk,
        ).replies[k] == server.reply(lines[k], None) by {
            if k > 0 {
                assert(rest[k - 1] == lines[k]);
            }
        }
    }
}

/// A run of requests that all select one route whose file is there to be
/// read reads the file once, and each request gets the reply that serves
/// the contents.
pub proof fn lemma_burst_reads_once(
    server: ServerView,
    lines: Seq<RequestLineView>,
    contents: Seq<char>,
)
    requires
        lines.len() > 0,
        server.pending_file(lines[0]) is Some,
        forall|k: int|
            0 <= k < lines.len() ==> server.route_of(#[trigger] lines[k]) == server.route_of(
                lines[0],
            ),
    ensures
        server.burst(lines, Some(contents)).reads == 1,
        server.burst(lines, Some(contents)).replies.len() == lines.len(),
        forall|k: int|
            0 <= k < lines.len() ==> #[trigger] server.burst(lines, Some(contents)).replies[k]
                == server.reply(lines[k], Some(contents)),
{
    let line = lines.first();
    let rest = lines.drop_first();
    let next = server.after(line, Some(contents));
    assert forall|k: int| 0 <= k < rest.len() implies next.pending_file(#[trigger] rest[k])
        is None && next.reply(rest[k], None) == server.reply(rest[k], Some(contents)) by {
        assert(rest[k] == lines[k + 1]);
        lemma_cache_wins(server, line, contents, rest[k], None);
    }
    lemma_burst_settled(next, rest, Some(contents));
    assert forall|k: int| 0 <= k < lines.len() implies #[trigger] server.burst(
        lines,
        Some(contents),
    ).replies[k] == server.reply(lines[k], Some(contents)) by {
        if k > 0 {
            assert(rest[k - 1] == lines[k]);
        }
    }
}

} // verus!
