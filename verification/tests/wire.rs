use http_server::entity::ContentType;
use http_server::entity::HttpMethod;
use http_server::text::chars_of;
use http_server::text::decimal_string;
use http_server::text::is_whitespace;
use http_server::text::same_text;
use http_server::text::CharClass;
use http_server::wire::cors_header;
use http_server::wire::write_response;

#[test]
fn text_is_wrapped_as_plain_text() {
    let wire = ContentType::TEXT.wrap_response(String::from("hello world"), "");
    assert_eq!(
        wire,
        "HTTP/1.1 200 OK\r\nContent-Type: text/plain; charset=utf-8\r\nContent-Length: 11\r\n\r\nhello world"
    );
}

#[test]
fn json_is_wrapped_as_json() {
    let wire = ContentType::JSON.wrap_response(String::from("{\"a\":1}"), "");
    assert_eq!(
        wire,
        "HTTP/1.1 200 OK\r\nContent-Type: application/json; charset=utf-8\r\nContent-Length: 7\r\n\r\n{\"a\":1}"
    );
}

#[test]
fn html_is_wrapped_as_html() {
    let wire = ContentType::HTML.wrap_response(String::from("<p>hi</p>"), "X-Test: 1\r\n");
    assert_eq!(
        wire,
        "HTTP/1.1 200 OK\r\nX-Test: 1\r\nContent-Type: text/html; charset=utf-8\r\nContent-Length: 9\r\n\r\n<p>hi</p>"
    );
}

#[test]
fn content_length_counts_bytes() {
    let wire = ContentType::TEXT.wrap_response(String::from("\u{e9}\u{5e74}\u{1f600}"), "");
    assert_eq!(
        wire,
        "HTTP/1.1 200 OK\r\nContent-Type: text/plain; charset=utf-8\r\nContent-Length: 9\r\n\r\n\u{e9}\u{5e74}\u{1f600}"
    );
    let wire = ContentType::TEXT.wrap_response(String::new(), "");
    assert_eq!(
        wire,
        "HTTP/1.1 200 OK\r\nContent-Type: text/plain; charset=utf-8\r\nContent-Length: 0\r\n\r\n"
    );
}

#[test]
fn long_bodies_have_long_lengths() {
    let body = "x".repeat(12345);
    let wire = ContentType::TEXT.wrap_response(body.clone(), "");
    assert_eq!(
        wire,
        format!(
            "HTTP/1.1 200 OK\r\nContent-Type: text/plain; charset=utf-8\r\nContent-Length: 12345\r\n\r\n{}",
            body
        )
    );
}

#[test]
fn any_status_is_written_with_ok() {
    assert_eq!(
        write_response(404, "", "text/plain", "gone"),
        "HTTP/1.1 404 OK\r\nContent-Type: text/plain; charset=utf-8\r\nContent-Length: 4\r\n\r\ngone"
    );
    assert_eq!(
        write_response(7, "A: b\r\n", "m", ""),
        "HTTP/1.1 7 OK\r\nA: b\r\nContent-Type: m; charset=utf-8\r\nContent-Length: 0\r\n\r\n"
    );
}

#[test]
fn cors_header_opens_every_origin() {
    assert_eq!(
        cors_header(true),
        "Access-Control-Allow-Origin: *\r\nAccess-Control-Allow-Methods: *\r\nAccess-Control-Allow-Headers: Content-Type, Authorization, Content-Length, X-Requested-With\r\nAccess-Control-Allow-Credentials: true\r\n"
    );
    assert_eq!(cors_header(false), "");
}

#[test]
fn numbers_are_written_in_decimal() {
    assert_eq!(decimal_string(0), "0");
    assert_eq!(decimal_string(7), "7");
    assert_eq!(decimal_string(10), "10");
    assert_eq!(decimal_string(404), "404");
    assert_eq!(decimal_string(1024), "1024");
    assert_eq!(decimal_string(9007199254740993), "9007199254740993");
    assert_eq!(decimal_string(usize::MAX), usize::MAX.to_string());
}

#[test]
fn methods_have_their_names() {
    assert_eq!(HttpMethod::GET.to_string(), "GET");
    assert_eq!(HttpMethod::POST.to_string(), "POST");
    assert_eq!(HttpMethod::PUT.to_string(), "PUT");
    assert_eq!(HttpMethod::DELETE.to_string(), "DELETE");
    assert_eq!(HttpMethod::HEAD.to_string(), "HEAD");
    assert_eq!(HttpMethod::PATCH.to_string(), "PATCH");
    assert_eq!(HttpMethod::OPTIONS.to_string(), "OPTIONS");
    assert_eq!(HttpMethod::CONNECT.to_string(), "CONNECT");
    assert_eq!(HttpMethod::TRACE.to_string(), "TRACE");
}

#[test]
fn content_types_have_their_media_types() {
    assert_eq!(ContentType::JSON.mime_type(), "application/json");
    assert_eq!(ContentType::TEXT.mime_type(), "text/plain");
    assert_eq!(ContentType::HTML.mime_type(), "text/html");
}

#[test]
fn white_space_is_what_the_standard_library_calls_so() {
    let mut code: u32 = 0;
    while code <= 0x11000 {
        if let Some(c) = char::from_u32(code) {
            assert_eq!(is_whitespace(c), c.is_whitespace(), "U+{:04X}", code);
        }
        code += 1;
    }
    assert!(!is_whitespace('\u{10ffff}'));
}

#[test]
fn character_classes_test_characters() {
    assert!(CharClass::Is('&').test('&'));
    assert!(!CharClass::Is('&').test('='));
    assert!(CharClass::Space.test('\t'));
    assert!(!CharClass::Space.test('x'));
    assert!(CharClass::Word.test('x'));
    assert!(!CharClass::Word.test(' '));
}

#[test]
fn strings_are_compared_by_their_characters() {
    assert!(same_text("", ""));
    assert!(same_text("caf\u{e9}", "caf\u{e9}"));
    assert!(!same_text("cafe", "caf\u{e9}"));
    assert!(!same_text("a", "ab"));
    assert!(!same_text("ab", "ac"));
    assert_eq!(chars_of("a\u{e9}\u{1f600}"), vec!['a', '\u{e9}', '\u{1f600}']);
    assert_eq!(chars_of(""), Vec::<char>::new());
}
