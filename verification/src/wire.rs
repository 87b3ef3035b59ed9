//! The text of a response as it is written to the connection.

use crate::text::decimal;
use crate::text::decimal_string;
use crate::text::digit;
use vstd::prelude::*;
use vstd::utf8::encode_utf8;

verus! {

/// A complete response: the status line, the cross-origin header block (empty
/// where cross-origin access is off), the type and the length in bytes of the
/// body, an empty line, and the body.
pub open spec fn wire_text(
    status: nat,
    cors_header: Seq<char>,
    mime: Seq<char>,
    body: Seq<char>,
) -> Seq<char> {
    "HTTP/1.1 "@ + decimal(status) + " OK\r\n"@ + cors_header + "Content-Type: "@ + mime
        + "; charset=utf-8\r\nContent-Length: "@ + decimal(encode_utf8(body).len()) + "\r\n\r\n"@
        + body
}

/// The status code of a response stands in its characters 9 to 11.
pub proof fn lemma_status_at(status: nat, header: Seq<char>, mime: Seq<char>, body: Seq<char>)
    requires
        100 <= status < 1000,
    ensures
        wire_text(status, header, mime, body).len() >= 12,
        wire_text(status, header, mime, body).subrange(9, 12) == decimal(status),
        decimal(status) == seq![
            digit(status / 100),
            digit((status / 10) % 10),
            digit(status % 10),
        ],
{
    reveal_strlit("HTTP/1.1 ");
    let code = decimal(status);
    assert(code =~= seq![digit(status / 100), digit((status / 10) % 10), digit(status % 10)]) by {
        reveal_with_fuel(decimal, 3);
    }
    assert(wire_text(status, header, mime, body).subrange(9, 12) =~= code);
}

/// The header lines that open a response to every origin.
pub open spec fn cors_block() -> Seq<char> {
    "Access-Control-Allow-Origin: *\r\n"@ + "Access-Control-Allow-Methods: *\r\n"@
        + "Access-Control-Allow-Headers: Content-Type, Authorization, Content-Length, X-Requested-With\r\n"@
        + "Access-Control-Allow-Credentials: true\r\n"@
}

/// The header block of a server with cross-origin access on or off.
pub open spec fn cors_text(cors: bool) -> Seq<char> {
    if cors {
        cors_block()
    } else {
        Seq::empty()
    }
}

/// Writes the header block of a server with cross-origin access on or off.
pub fn cors_header(cors: bool) -> (header: String)
    ensures
        header@ == cors_text(cors),
{
    let mut header = String::new();
    if cors {
        header.append("Access-Control-Allow-Origin: *\r\n");
        header.append("Access-Control-Allow-Methods: *\r\n");
        header.append(
            "Access-Control-Allow-Headers: Content-Type, Authorization, Content-Length, X-Requested-With\r\n",
        );
        header.append("Access-Control-Allow-Credentials: true\r\n");
    }
    header
}

/// Writes a complete response.
pub fn write_response(status: u16, cors_header: &str, mime: &str, body: &str) -> (wire: String)
    ensures
        wire@ == wire_text(status as nat, cors_header@, mime@, body@),
{
    let code = decimal_string(status as usize);
    let length = decimal_string(body.as_bytes().len());
    let mut wire = String::new();
    wire.append("HTTP/1.1 ");
    wire.append(code.as_str());
    wire.append(" OK\r\n");
    wire.append(cors_header);
    wire.append("Content-Type: ");
    wire.append(mime);
    wire.append("; charset=utf-8\r\nContent-Length: ");
    wire.append(length.as_str());
    wire.append("\r\n\r\n");
    wire.append(body);
    wire
}

} // verus!
