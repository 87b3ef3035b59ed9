//! The configuration model: a server, its ordered routes, and the request
//! pattern and response template of each route.
//!
//! Every type has a view that replaces strings by their character sequences;
//! the contracts of the crate are stated over these views.

use crate::wire::wire_text;
use crate::wire::write_response;
use vstd::prelude::*;

verus! {

/// The request methods a route can be declared for.
#[derive(Debug, Clone, Copy, PartialEq, Eq, Structural)]
pub enum HttpMethod {
    GET,
    POST,
    PUT,
    DELETE,
    HEAD,
    PATCH,
    OPTIONS,
    CONNECT,
    TRACE,
}

impl HttpMethod {
    /// The token that stands for this method on a request line.
    pub open spec fn name(self) -> Seq<char> {
        match self {
            HttpMethod::GET => "GET"@,
            HttpMethod::POST => "POST"@,
            HttpMethod::PUT => "PUT"@,
            HttpMethod::DELETE => "DELETE"@,
            HttpMethod::HEAD => "HEAD"@,
            HttpMethod::PATCH => "PATCH"@,
            HttpMethod::OPTIONS => "OPTIONS"@,
            HttpMethod::CONNECT => "CONNECT"@,
            HttpMethod::TRACE => "TRACE"@,
        }
    }

    /// The name of the method, as it is written on a request line.
    pub fn to_string(&self) -> (token: &str)
        ensures
            token@ == self.name(),
    {
        match self {
            HttpMethod::GET => "GET",
            HttpMethod::POST => "POST",
            HttpMethod::PUT => "PUT",
            HttpMethod::DELETE => "DELETE",
            HttpMethod::HEAD => "HEAD",
            HttpMethod::PATCH => "PATCH",
            HttpMethod::OPTIONS => "OPTIONS",
            HttpMethod::CONNECT => "CONNECT",
            HttpMethod::TRACE => "TRACE",
        }
    }

    /// Two methods with the same token are the same method.
    pub proof fn lemma_name_injective(a: HttpMethod, b: HttpMethod)
        requires
            a.name() == b.name(),
        ensures
            a == b,
    {
        reveal_strlit("GET");
        reveal_strlit("POST");
        reveal_strlit("PUT");
        reveal_strlit("DELETE");
        reveal_strlit("HEAD");
        reveal_strlit("PATCH");
        reveal_strlit("OPTIONS");
        reveal_strlit("CONNECT");
        reveal_strlit("TRACE");
        match a {
            HttpMethod::GET => assert("GET"@.len() == 3 && "GET"@[0] == 'G'),
            HttpMethod::POST => assert("POST"@.len() == 4 && "POST"@[0] == 'P'),
            HttpMethod::PUT => assert("PUT"@.len() == 3 && "PUT"@[0] == 'P'),
            HttpMethod::DELETE => assert("DELETE"@.len() == 6),
            HttpMethod::HEAD => assert("HEAD"@.len() == 4 && "HEAD"@[0] == 'H'),
            HttpMethod::PATCH => assert("PATCH"@.len() == 5 && "PATCH"@[0] == 'P'),
            HttpMethod::OPTIONS => assert("OPTIONS"@.len() == 7 && "OPTIONS"@[0] == 'O'),
            HttpMethod::CONNECT => assert("CONNECT"@.len() == 7 && "CONNECT"@[0] == 'C'),
            HttpMethod::TRACE => assert("TRACE"@.len() == 5 && "TRACE"@[0] == 'T'),
        }
        match b {
            HttpMethod::GET => assert("GET"@.len() == 3 && "GET"@[0] == 'G'),
            HttpMethod::POST => assert("POST"@.len() == 4 && "POST"@[0] == 'P'),
            HttpMethod::PUT => assert("PUT"@.len() == 3 && "PUT"@[0] == 'P'),
            HttpMethod::DELETE => assert("DELETE"@.len() == 6),
            HttpMethod::HEAD => assert("HEAD"@.len() == 4 && "HEAD"@[0] == 'H'),
            HttpMethod::PATCH => assert("PATCH"@.len() == 5 && "PATCH"@[0] == 'P'),
            HttpMethod::OPTIONS => assert("OPTIONS"@.len() == 7 && "OPTIONS"@[0] == 'O'),
            HttpMethod::CONNECT => assert("CONNECT"@.len() == 7 && "CONNECT"@[0] == 'C'),
            HttpMethod::TRACE => assert("TRACE"@.len() == 5 && "TRACE"@[0] == 'T'),
        }
    }
}

/// How the payload of a response is labelled on the wire.
#[derive(Debug, Clone, Copy, PartialEq, Eq, Structural)]
pub enum ContentType {
    JSON,
    TEXT,
    HTML,
}

impl ContentType {
    /// The media type announced for a payload of this kind.
    pub open spec fn mime(self) -> Seq<char> {
        match self {
            ContentType::JSON => "application/json"@,
            ContentType::TEXT => "text/plain"@,
            ContentType::HTML => "text/html"@,
        }
    }

    /// The media type as a string.
    pub fn mime_type(&self) -> (mime: &'static str)
        ensures
            mime@ == self.mime(),
    {
        match self {
            ContentType::JSON => "application/json",
            ContentType::TEXT => "text/plain",
            ContentType::HTML => "text/html",
        }
    }

    /// Writes the successful response that carries `data` as its body.
    pub fn wrap_response(&self, data: String, cors_header: &str) -> (wire: String)
        ensures
            wire@ == wire_text(200, cors_header@, self.mime(), data@),
    {
        write_response(200, cors_header, self.mime_type(), data.as_str())
    }
}

/// What a route expects of a request: a method, the path below the server's
/// base path, and optionally the names of the query parameters.
#[derive(Debug, Clone)]
pub struct Request {
    pub method: HttpMethod,
    pub url: String,
    pub query: Option<Vec<String>>,
}

/// A request pattern with its strings as character sequences.
pub struct RequestView {
    pub method: HttpMethod,
    pub url: Seq<char>,
    pub query: Option<Seq<Seq<char>>>,
}

impl View for Request {
    type V = RequestView;

    open spec fn view(&self) -> RequestView {
        RequestView { method: self.method, url: self.url@, query: self.query.deep_view() }
    }
}

/// What a route answers with.
///
/// `is_file` has three states. Unset, `data` is the payload itself. `Some(true)`,
/// `data` is the path of a file whose contents are the payload and have not
/// been read yet. `Some(false)`, `data` is a payload that is served as it is,
/// such as file contents read earlier.
#[derive(Debug, Clone)]
pub struct Response {
    pub timeout: u64,
    pub content_type: ContentType,
    pub is_file: Option<bool>,
    pub data: String,
}

/// A response template with its data as a character sequence.
pub struct ResponseView {
    pub timeout: u64,
    pub content_type: ContentType,
    pub is_file: Option<bool>,
    pub data: Seq<char>,
}

impl View for Response {
    type V = ResponseView;

    open spec fn view(&self) -> ResponseView {
        ResponseView {
            timeout: self.timeout,
            content_type: self.content_type,
            is_file: self.is_file,
            data: self.data@,
        }
    }
}

impl ResponseView {
    /// Whether the payload is a file that has not been read yet.
    pub open spec fn pending(self) -> bool {
        self.is_file == Some(true)
    }

    /// The payload served, given what an attempt to read the pending file
    /// gave (`None` where it failed). There is none where a pending file
    /// could not be read.
    pub open spec fn payload(self, file: Option<Seq<char>>) -> Option<Seq<char>> {
        if self.pending() {
            file
        } else {
            Some(self.data)
        }
    }

    /// The template after serving: a pending file that was read is kept as
    /// plain data from then on; in every other case nothing changes.
    pub open spec fn resolved(self, file: Option<Seq<char>>) -> ResponseView {
        if self.pending() && file is Some {
            ResponseView { is_file: Some(false), data: file->0, ..self }
        } else {
            self
        }
    }

    /// What is written for this template on a match, if a payload can be had.
    pub open spec fn wire(self, file: Option<Seq<char>>, cors_header: Seq<char>) -> Option<
        Seq<char>,
    > {
        match self.payload(file) {
            Some(body) => Some(wire_text(200, cors_header, self.content_type.mime(), body)),
            None => None,
        }
    }
}

/// The contents of a file are kept at most once. A template without a
/// pending file never changes. A template whose file could not be read stays
/// as it is. A template whose file was read holds the contents as plain
/// data, and nothing that is read later changes it again.
pub proof fn lemma_resolves_once(
    response: ResponseView,
    first: Option<Seq<char>>,
    second: Option<Seq<char>>,
)
    ensures
        !response.pending() || first is None ==> response.resolved(first) == response,
        response.pending() && first is Some ==> {
            &&& response.resolved(first).is_file == Some(false)
            &&& response.resolved(first).data == first->0
            &&& response.resolved(first).resolved(second) == response.resolved(first)
        },
        response.resolved(first).timeout == response.timeout,
        response.resolved(first).content_type == response.content_type,
{
}

impl Response {
    /// The path of the file that has to be read before this response can be
    /// served, if there is one.
    pub fn pending_file(&self) -> (path: Option<String>)
        ensures
            path.deep_view() == if self@.pending() {
                Some(self@.data)
            } else {
                None::<Seq<char>>
            },
    {
        match self.is_file {
            Some(true) => Some(self.data.clone()),
            _ => None,
        }
    }

    /// Determines the payload. `file` is what reading the pending file gave,
    /// `None` where it could not be read; it is ignored unless a file is
    /// pending. Contents that were read replace the path, once and for all.
    pub fn resolve(&mut self, file: Option<String>) -> (payload: Option<String>)
        ensures
            final(self)@ == old(self)@.resolved(file.deep_view()),
            payload.deep_view() == old(self)@.payload(file.deep_view()),
    {
        match self.is_file {
            Some(true) => {
                match file {
                    Some(contents) => {
                        self.data = contents.clone();
                        self.is_file = Some(false);
                        Some(contents)
                    },
                    None => None,
                }
            },
            _ => Some(self.data.clone()),
        }
    }

    /// Resolves the payload and writes the successful response around it.
    /// There is no response where a pending file could not be read.
    pub fn synthesize(&mut self, file: Option<String>, cors_header: &str) -> (wire: Option<String>)
        ensures
            final(self)@ == old(self)@.resolved(file.deep_view()),
            wire.deep_view() == old(self)@.wire(file.deep_view(), cors_header@),
    {
        let content_type = self.content_type;
        match self.resolve(file) {
            Some(body) => Some(content_type.wrap_response(body, cors_header)),
            None => None,
        }
    }
}

/// A route: a request pattern and the response served for it.
#[derive(Debug, Clone)]
pub struct Api {
    pub request: Request,
    pub response: Response,
}

/// A route as its two views.
pub struct ApiView {
    pub request: RequestView,
    pub response: ResponseView,
}

impl View for Api {
    type V = ApiView;

    open spec fn view(&self) -> ApiView {
        ApiView { request: self.request@, response: self.response@ }
    }
}

/// The views of a list of routes, in the order of the list.
pub open spec fn api_views(apis: Seq<Api>) -> Seq<ApiView> {
    apis.map_values(|api: Api| api@)
}

/// The whole configuration. The order of `apis` is significant: routes are
/// tried first to last.
#[derive(Debug)]
pub struct Server {
    pub log_level: String,
    pub host: String,
    pub port: u16,
    pub base: String,
    pub cors: bool,
    pub error: String,
    pub apis: Vec<Api>,
}

/// A configuration with its strings as character sequences and its routes
/// as a sequence of their views.
pub struct ServerView {
    pub log_level: Seq<char>,
    pub host: Seq<char>,
    pub port: u16,
    pub base: Seq<char>,
    pub cors: bool,
    pub error: Seq<char>,
    pub apis: Seq<ApiView>,
}

impl View for Server {
    type V = ServerView;

    open spec fn view(&self) -> ServerView {
        ServerView {
            log_level: self.log_level@,
            host: self.host@,
            port: self.port,
            base: self.base@,
            cors: self.cors,
            error: self.error@,
            apis: api_views(self.apis@),
        }
    }
}

impl Default for Request {
    /// `GET /` with the parameters `name` and `age`.
    fn default() -> (request: Self)
        ensures
            request@ == Request::default_view(),
    {
        let request = Request {
            method: HttpMethod::GET,
            url: String::from_str("/"),
            query: Some(vec![String::from_str("name"), String::from_str("age")]),
        };
        assert(request.query.deep_view()->0 =~= seq!["name"@, "age"@]);
        request
    }
}

impl Default for Response {
    /// The plain text `hello world`, without delay.
    fn default() -> (response: Self)
        ensures
            response@ == Response::default_view(),
    {
        Response {
            timeout: 0,
            content_type: ContentType::TEXT,
            is_file: Some(false),
            data: String::from_str("hello world"),
        }
    }
}

impl Default for Api {
    /// The default request answered by the default response.
    fn default() -> (api: Self)
        ensures
            api@ == Api::default_view(),
    {
        Api { request: Request::default(), response: Response::default() }
    }
}

impl Api {
    /// The view of the default route.
    pub open spec fn default_view() -> ApiView {
        ApiView { request: Request::default_view(), response: Response::default_view() }
    }
}

impl Request {
    /// The view of the default request.
    pub open spec fn default_view() -> RequestView {
        RequestView { method: HttpMethod::GET, url: "/"@, query: Some(seq!["name"@, "age"@]) }
    }
}

impl Response {
    /// The view of the default response.
    pub open spec fn default_view() -> ResponseView {
        ResponseView {
            timeout: 0,
            content_type: ContentType::TEXT,
            is_file: Some(false),
            data: "hello world"@,
        }
    }
}

impl Default for Server {
    /// A server on `127.0.0.1:8080` with the base path `/`, without
    /// cross-origin headers, with the one default route.
    fn default() -> (server: Self)
        ensures
            server@ == (ServerView {
                log_level: "info"@,
                host: "127.0.0.1"@,
                port: 8080,
                base: "/"@,
                cors: false,
                error: "404 not found"@,
                apis: seq![Api::default_view()],
            }),
    {
        let server = Server {
            log_level: String::from_str("info"),
            host: String::from_str("127.0.0.1"),
            port: 8080,
            base: String::from_str("/"),
            cors: false,
            error: String::from_str("404 not found"),
            apis: vec![Api::default()],
        };
        assert(server@.apis =~= seq![Api::default_view()]);
        server
    }
}

} // verus!
