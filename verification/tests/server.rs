use http_server::entity::Api;
use http_server::entity::ContentType;
use http_server::entity::HttpMethod;
use http_server::entity::Request;
use http_server::entity::Response;
use http_server::entity::Server;
use http_server::request::parse_request_line;
use http_server::request::parse_request_text;
use http_server::server::reply_matched;
use http_server::server::reply_unmatched;

const CORS: &str = "Access-Control-Allow-Origin: *\r\nAccess-Control-Allow-Methods: *\r\nAccess-Control-Allow-Headers: Content-Type, Authorization, Content-Length, X-Requested-With\r\nAccess-Control-Allow-Credentials: true\r\n";

fn route(
    method: HttpMethod,
    url: &str,
    query: Option<&[&str]>,
    is_file: Option<bool>,
    data: &str,
) -> Api {
    Api {
        request: Request {
            method,
            url: String::from(url),
            query: query.map(|names| names.iter().map(|name| String::from(*name)).collect()),
        },
        response: Response {
            timeout: 0,
            content_type: ContentType::TEXT,
            is_file,
            data: String::from(data),
        },
    }
}

fn server(base: &str, cors: bool, apis: Vec<Api>) -> Server {
    Server {
        log_level: String::from("info"),
        host: String::from("127.0.0.1"),
        port: 8080,
        base: String::from(base),
        cors,
        error: String::from("404 not found"),
        apis,
    }
}

fn ok(mime: &str, body: &str) -> String {
    format!(
        "HTTP/1.1 200 OK\r\nContent-Type: {}; charset=utf-8\r\nContent-Length: {}\r\n\r\n{}",
        mime,
        body.len(),
        body
    )
}

const NOT_FOUND: &str =
    "HTTP/1.1 404 OK\r\nContent-Type: text/plain; charset=utf-8\r\nContent-Length: 13\r\n\r\n404 not found";

const MISMATCH: &str =
    "HTTP/1.1 400 OK\r\nContent-Type: text/plain; charset=utf-8\r\nContent-Length: 19\r\n\r\nParameters mismatch";

#[test]
fn default_server_serves_hello_world() {
    let mut server = Server::default();
    assert_eq!(server.log_level, "info");
    assert_eq!(server.host, "127.0.0.1");
    assert_eq!(server.port, 8080);
    assert_eq!(server.base, "/");
    assert!(!server.cors);
    assert_eq!(server.error, "404 not found");
    assert_eq!(server.apis.len(), 1);
    assert_eq!(server.apis[0].request.method, HttpMethod::GET);
    assert_eq!(server.apis[0].request.url, "/");
    assert_eq!(
        server.apis[0].request.query,
        Some(vec![String::from("name"), String::from("age")])
    );
    assert_eq!(server.apis[0].response.timeout, 0);
    assert_eq!(server.apis[0].response.content_type, ContentType::TEXT);
    assert_eq!(server.apis[0].response.is_file, Some(false));
    assert_eq!(server.apis[0].response.data, "hello world");
    let line = parse_request_line(b"GET /?name=reine&age=23 HTTP/1.1\r\n\r\n");
    let reply = server.respond(&line, None);
    assert_eq!(reply.status, 200);
    assert_eq!(reply.timeout, 0);
    assert_eq!(reply.text, ok("text/plain", "hello world"));
    assert!(!reply.file_missing);
}

#[test]
fn default_parts_are_those_of_the_default_server() {
    let api = Api::default();
    let request = Request::default();
    let response = Response::default();
    assert_eq!(api.request.method, request.method);
    assert_eq!(api.request.url, request.url);
    assert_eq!(api.request.query, request.query);
    assert_eq!(api.response.timeout, response.timeout);
    assert_eq!(api.response.content_type, response.content_type);
    assert_eq!(api.response.is_file, response.is_file);
    assert_eq!(api.response.data, response.data);
    assert_eq!(request.method, HttpMethod::GET);
    assert_eq!(request.url, "/");
    assert_eq!(response.data, "hello world");
}

#[test]
fn matching_route_is_served_with_its_content_type() {
    let mut json = route(HttpMethod::POST, "/items", None, None, "{\"n\":1}");
    json.response.content_type = ContentType::JSON;
    json.response.timeout = 3;
    let mut html = route(HttpMethod::GET, "/page", None, Some(false), "<h1>\u{e9}</h1>");
    html.response.content_type = ContentType::HTML;
    let mut server = server("/api", false, vec![json, html]);
    let reply = server.respond(&parse_request_text("POST /api/items/ HTTP/1.1"), None);
    assert_eq!(reply.status, 200);
    assert_eq!(reply.timeout, 3);
    assert_eq!(reply.text, ok("application/json", "{\"n\":1}"));
    let reply = server.respond(&parse_request_text("GET /api/page?x=1 HTTP/1.1"), None);
    assert_eq!(reply.status, 200);
    assert_eq!(reply.timeout, 0);
    assert_eq!(reply.text, ok("text/html", "<h1>\u{e9}</h1>"));
    assert_eq!(
        reply.text,
        "HTTP/1.1 200 OK\r\nContent-Type: text/html; charset=utf-8\r\nContent-Length: 11\r\n\r\n<h1>\u{e9}</h1>"
    );
}

#[test]
fn first_of_two_equal_routes_is_served() {
    let mut server = server(
        "/api",
        false,
        vec![
            route(HttpMethod::GET, "/same", None, None, "first"),
            route(HttpMethod::GET, "/same", None, None, "second"),
        ],
    );
    let line = parse_request_text("GET /api/same HTTP/1.1");
    let plan = server.plan(&line);
    assert_eq!(plan.route, Some(0));
    assert!(!plan.mismatch);
    for _ in 0..3 {
        let reply = server.respond(&line, None);
        assert_eq!(reply.text, ok("text/plain", "first"));
    }
}

#[test]
fn first_match_decides_even_where_a_later_route_fits_better() {
    let mut server = server(
        "",
        false,
        vec![
            route(HttpMethod::GET, "/q", Some(&["a"]), None, "wants a"),
            route(HttpMethod::GET, "/q", Some(&["b"]), None, "wants b"),
        ],
    );
    let line = parse_request_text("GET /q?b=1 HTTP/1.1");
    let plan = server.plan(&line);
    assert_eq!(plan.route, Some(0));
    assert!(plan.mismatch);
    let reply = server.respond(&line, None);
    assert_eq!(reply.status, 400);
    assert_eq!(reply.text, MISMATCH);
}

#[test]
fn unknown_path_gets_the_fallback() {
    let mut server = server("/api", false, vec![route(HttpMethod::GET, "/x", None, None, "x")]);
    for text in ["GET /api/y HTTP/1.1", "PUT /api/x HTTP/1.1", "BREW /api/x HTTP/1.1", "", "GET"] {
        let line = parse_request_text(text);
        assert_eq!(server.plan(&line).route, None);
        assert_eq!(server.pending_file(&line), None);
        let reply = server.respond(&line, None);
        assert_eq!(reply.status, 404);
        assert_eq!(reply.timeout, 0);
        assert_eq!(reply.text, NOT_FOUND);
        assert!(!reply.file_missing);
    }
}

#[test]
fn fallback_body_is_the_configured_text() {
    let mut server = server("", true, Vec::new());
    server.error = String::from("nichts gefunden \u{2639}");
    let reply = server.respond(&parse_request_text("GET / HTTP/1.1"), None);
    assert_eq!(reply.status, 404);
    assert_eq!(
        reply.text,
        format!(
            "HTTP/1.1 404 OK\r\n{}Content-Type: text/plain; charset=utf-8\r\nContent-Length: 19\r\n\r\nnichts gefunden \u{2639}",
            CORS
        )
    );
    assert_eq!(reply.text, reply_unmatched(true, "nichts gefunden \u{2639}").text);
}

#[test]
fn cors_headers_follow_the_status_line() {
    let mut server = server("", true, vec![route(HttpMethod::GET, "/x", Some(&["k"]), None, "x")]);
    let reply = server.respond(&parse_request_text("GET /x?k=1 HTTP/1.1"), None);
    assert_eq!(
        reply.text,
        format!(
            "HTTP/1.1 200 OK\r\n{}Content-Type: text/plain; charset=utf-8\r\nContent-Length: 1\r\n\r\nx",
            CORS
        )
    );
    let reply = server.respond(&parse_request_text("GET /x?j=1 HTTP/1.1"), None);
    assert_eq!(
        reply.text,
        format!(
            "HTTP/1.1 400 OK\r\n{}Content-Type: text/plain; charset=utf-8\r\nContent-Length: 19\r\n\r\nParameters mismatch",
            CORS
        )
    );
}

#[test]
fn mismatched_parameters_get_400() {
    let mut api = route(HttpMethod::GET, "/who", Some(&["name", "age"]), None, "body");
    api.response.timeout = 2;
    let mut server = server("/b", false, vec![api]);
    for target in ["/b/who", "/b/who?name=1", "/b/who?name=1&age=2&x=3", "/b/who/?nam=1&age=2"] {
        let line = parse_request_text(&format!("GET {} HTTP/1.1", target));
        let plan = server.plan(&line);
        assert_eq!(plan.route, Some(0));
        assert!(plan.mismatch);
        let reply = server.respond(&line, None);
        assert_eq!(reply.status, 400);
        assert_eq!(reply.timeout, 2);
        assert_eq!(reply.text, MISMATCH);
        assert_ne!(reply.text, ok("text/plain", "body"));
        assert_ne!(reply.text, NOT_FOUND);
    }
    let reply = server.respond(&parse_request_text("GET /b/who?age=2&name=1 HTTP/1.1"), None);
    assert_eq!(reply.status, 200);
    assert_eq!(reply.text, ok("text/plain", "body"));
}

#[test]
fn mismatch_wins_over_a_missing_file() {
    let mut server =
        server("", false, vec![route(HttpMethod::GET, "/f", Some(&["k"]), Some(true), "f.txt")]);
    let line = parse_request_text("GET /f HTTP/1.1");
    assert_eq!(server.pending_file(&line), Some(String::from("f.txt")));
    let reply = server.respond(&line, None);
    assert_eq!(reply.status, 400);
    assert_eq!(reply.text, MISMATCH);
    assert!(reply.file_missing);
    assert_eq!(server.apis[0].response.is_file, Some(true));
    assert_eq!(server.apis[0].response.data, "f.txt");
}

#[test]
fn mismatch_still_keeps_the_file_that_was_read() {
    let mut server =
        server("", false, vec![route(HttpMethod::GET, "/f", Some(&["k"]), Some(true), "f.txt")]);
    let reply = server.respond(&parse_request_text("GET /f HTTP/1.1"), Some(String::from("read")));
    assert_eq!(reply.status, 400);
    assert_eq!(reply.text, MISMATCH);
    assert!(!reply.file_missing);
    assert_eq!(server.apis[0].response.is_file, Some(false));
    assert_eq!(server.apis[0].response.data, "read");
    let line = parse_request_text("GET /f?k=1 HTTP/1.1");
    assert_eq!(server.pending_file(&line), None);
    assert_eq!(server.respond(&line, None).text, ok("text/plain", "read"));
}

#[test]
fn file_is_read_once_and_served_from_then_on() {
    let mut server =
        server("/api", false, vec![route(HttpMethod::GET, "/file", None, Some(true), "data.txt")]);
    let line = parse_request_text("GET /api/file HTTP/1.1");
    assert_eq!(server.pending_file(&line), Some(String::from("data.txt")));
    let reply = server.respond(&line, Some(String::from("first contents")));
    assert_eq!(reply.status, 200);
    assert_eq!(reply.text, ok("text/plain", "first contents"));
    assert!(!reply.file_missing);
    assert_eq!(server.apis[0].response.is_file, Some(false));
    assert_eq!(server.apis[0].response.data, "first contents");
    assert_eq!(server.pending_file(&line), None);
    let reply = server.respond(&line, Some(String::from("changed on disk")));
    assert_eq!(reply.text, ok("text/plain", "first contents"));
    let reply = server.respond(&line, None);
    assert_eq!(reply.status, 200);
    assert_eq!(reply.text, ok("text/plain", "first contents"));
    assert!(!reply.file_missing);
    assert_eq!(server.apis[0].response.data, "first contents");
}

#[test]
fn missing_file_gets_the_fallback_and_is_tried_again() {
    let mut api = route(HttpMethod::GET, "/file", None, Some(true), "nowhere.txt");
    api.response.timeout = 5;
    let mut server = server("/api", false, vec![api]);
    let line = parse_request_text("GET /api/file HTTP/1.1");
    let reply = server.respond(&line, None);
    assert_eq!(reply.status, 404);
    assert_eq!(reply.timeout, 5);
    assert_eq!(reply.text, NOT_FOUND);
    assert!(reply.file_missing);
    assert_eq!(server.apis[0].response.is_file, Some(true));
    assert_eq!(server.apis[0].response.data, "nowhere.txt");
    assert_eq!(server.pending_file(&line), Some(String::from("nowhere.txt")));
    let reply = server.respond(&line, Some(String::from("now there")));
    assert_eq!(reply.status, 200);
    assert_eq!(reply.text, ok("text/plain", "now there"));
}

#[test]
fn literal_data_is_never_read_from_a_file() {
    let mut server = server(
        "",
        false,
        vec![
            route(HttpMethod::GET, "/unset", None, None, "a.txt"),
            route(HttpMethod::GET, "/done", None, Some(false), "b.txt"),
        ],
    );
    for (target, body) in [("/unset", "a.txt"), ("/done", "b.txt")] {
        let line = parse_request_text(&format!("GET {} HTTP/1.1", target));
        assert_eq!(server.pending_file(&line), None);
        let reply = server.respond(&line, Some(String::from("ignored")));
        assert_eq!(reply.status, 200);
        assert_eq!(reply.text, ok("text/plain", body));
    }
    assert_eq!(server.apis[0].response.is_file, None);
    assert_eq!(server.apis[0].response.data, "a.txt");
    assert_eq!(server.apis[1].response.is_file, Some(false));
    assert_eq!(server.apis[1].response.data, "b.txt");
}

#[test]
fn a_burst_reads_the_file_once() {
    let mut server = server(
        "",
        false,
        vec![
            route(HttpMethod::GET, "/other", None, Some(true), "other.txt"),
            route(HttpMethod::GET, "/file", None, Some(true), "data.txt"),
        ],
    );
    let mut reads = 0;
    for turn in 0..16 {
        let target = ["/file", "/file/", "/file?x=1", "/file/?y"][turn % 4];
        let line = parse_request_text(&format!("GET {} HTTP/1.1", target));
        let file = match server.pending_file(&line) {
            Some(path) => {
                assert_eq!(path, "data.txt");
                reads += 1;
                Some(String::from("contents"))
            }
            None => None,
        };
        let reply = server.respond(&line, file);
        assert_eq!(reply.status, 200);
        assert_eq!(reply.text, ok("text/plain", "contents"));
    }
    assert_eq!(reads, 1);
    assert_eq!(server.apis[0].response.is_file, Some(true));
    assert_eq!(server.apis[0].response.data, "other.txt");
}

#[test]
fn one_response_is_resolved_and_wrapped() {
    let mut response = Response {
        timeout: 1,
        content_type: ContentType::HTML,
        is_file: Some(true),
        data: String::from("page.html"),
    };
    assert_eq!(response.pending_file(), Some(String::from("page.html")));
    assert_eq!(response.synthesize(None, ""), None);
    assert_eq!(response.is_file, Some(true));
    assert_eq!(response.resolve(None), None);
    assert_eq!(response.resolve(Some(String::from("<p/>"))), Some(String::from("<p/>")));
    assert_eq!(response.is_file, Some(false));
    assert_eq!(response.data, "<p/>");
    assert_eq!(response.timeout, 1);
    assert_eq!(response.pending_file(), None);
    assert_eq!(response.resolve(Some(String::from("other"))), Some(String::from("<p/>")));
    assert_eq!(response.synthesize(Some(String::from("other")), ""), Some(ok("text/html", "<p/>")));
}

#[test]
fn replies_for_one_route_follow_the_priority() {
    let mut response = Response {
        timeout: 9,
        content_type: ContentType::JSON,
        is_file: Some(true),
        data: String::from("a.json"),
    };
    let reply = reply_matched(false, "gone", false, &mut response, None);
    assert_eq!((reply.status, reply.timeout, reply.file_missing), (404, 9, true));
    assert_eq!(
        reply.text,
        "HTTP/1.1 404 OK\r\nContent-Type: text/plain; charset=utf-8\r\nContent-Length: 4\r\n\r\ngone"
    );
    let reply = reply_matched(false, "gone", true, &mut response, Some(String::from("[]")));
    assert_eq!((reply.status, reply.timeout, reply.file_missing), (400, 9, false));
    assert_eq!(reply.text, MISMATCH);
    let reply = reply_matched(false, "gone", false, &mut response, None);
    assert_eq!((reply.status, reply.timeout, reply.file_missing), (200, 9, false));
    assert_eq!(reply.text, ok("application/json", "[]"));
    let reply = reply_unmatched(false, "gone");
    assert_eq!((reply.status, reply.timeout, reply.file_missing), (404, 0, false));
}
