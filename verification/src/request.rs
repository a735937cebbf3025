//! Assembling the text of an HTTP/1.1 request.

use vstd::prelude::*;
use vstd::string::*;
use vstd::utf8::encode_utf8;
use crate::scan::str_eq;

verus! {

/// The protocol that every request names in its first line.
pub const PROTOCOL_LABEL: &'static str = "HTTP/1.1";

/// The method of a request for which none was chosen.
pub const DEFAULT_METHOD: &'static str = "GET";

/// The end of every line of a request's head.
pub const CRLF: &'static str = "\r\n";

/// The first of the lines that every request carries after its `Host` line.
pub const ACCEPT_LINE: &'static str = "Accept: */*\r\n";

/// The line that asks the server to close the connection after its answer.
pub const CONNECTION_LINE: &'static str = "Connection: close\r\n";

/// The line by which the client names itself.
pub const USER_AGENT_LINE: &'static str = "User-Agent: MyRustClient/1.0 \r\n";

/// The content type of a body that comes without header lines of its own.
pub const DEFAULT_CONTENT_TYPE: &'static str = "Content-Type: application/json\r\n";

/// The decimal digit for a number below ten.
pub open spec fn digit(d: nat) -> char
    recommends
        d < 10,
{
    ((d + 48) as u8) as char
}

/// A number written in decimal digits, without leading zeros.
pub open spec fn decimal(n: nat) -> Seq<char>
    decreases n,
{
    if n < 10 {
        seq![digit(n)]
    } else {
        decimal(n / 10).push(digit(n % 10))
    }
}

/// Whether a request with this method carries a body: `PUT` and `POST` do,
/// spelled exactly so.
pub open spec fn carries_body(method: Seq<char>) -> bool {
    method == "PUT"@ || method == "POST"@
}

/// The request line, the `Host` line and the fixed lines.
pub open spec fn request_head(method: Seq<char>, host: Seq<char>, path: Seq<char>) -> Seq<char> {
    method + " /"@ + path + " "@ + PROTOCOL_LABEL@ + CRLF@ + "Host: "@ + host + CRLF@
        + ACCEPT_LINE@ + CONNECTION_LINE@ + USER_AGENT_LINE@
}

/// What a request with a body holds after its head: the caller's header
/// lines as they are, or the default content type where there are none; the
/// length of the body in bytes; a blank line; the body; a line end.
pub open spec fn body_section(headers: Seq<Seq<char>>, body: Seq<char>) -> Seq<char> {
    (if headers.len() > 0 {
        headers.flatten()
    } else {
        DEFAULT_CONTENT_TYPE@
    }) + "Content-Length: "@ + decimal(encode_utf8(body).len()) + " \r\n\r\n"@ + body + CRLF@
}

/// The whole text of a request. After the head comes the body section, for
/// the methods that carry a body, and then, for every method, one more line
/// end.
pub open spec fn request_text(
    method: Seq<char>,
    host: Seq<char>,
    path: Seq<char>,
    headers: Seq<Seq<char>>,
    body: Seq<char>,
) -> Seq<char> {
    request_head(method, host, path) + (if carries_body(method) {
        body_section(headers, body)
    } else {
        Seq::empty()
    }) + CRLF@
}

/// The protocol label for a scheme. Every scheme is served as HTTP/1.1.
pub fn get_protocol(protocol: &str) -> (label: &str)
    ensures
        label@ == PROTOCOL_LABEL@,
{
    PROTOCOL_LABEL
}

fn digit_text(d: usize) -> (text: &'static str)
    requires
        d < 10,
    ensures
        text@ == seq![digit(d as nat)],
{
    proof {
        reveal_strlit("0");
        reveal_strlit("1");
        reveal_strlit("2");
        reveal_strlit("3");
        reveal_strlit("4");
        reveal_strlit("5");
        reveal_strlit("6");
        reveal_strlit("7");
        reveal_strlit("8");
        reveal_strlit("9");
    }
    let text = if d == 0 {
        "0"
    } else if d == 1 {
        "1"
    } else if d == 2 {
        "2"
    } else if d == 3 {
        "3"
    } else if d == 4 {
        "4"
    } else if d == 5 {
        "5"
    } else if d == 6 {
        "6"
    } else if d == 7 {
        "7"
    } else if d == 8 {
        "8"
    } else {
        "9"
    };
    assert(text@ =~= seq![digit(d as nat)]);
    text
}

/// Appends `n` in decimal digits to `out`.
pub fn append_decimal(out: &mut String, n: usize)
    ensures
        final(out)@ == old(out)@ + decimal(n as nat),
    decreases n,
{
    if n >= 10 {
        append_decimal(out, n / 10);
    }
    out.append(digit_text(n % 10));
    assert(out@ =~= old(out)@ + decimal(n as nat));
}

/// The views of a list of header lines.
pub open spec fn line_views(headers: Seq<&str>) -> Seq<Seq<char>> {
    headers.map_values(|line: &str| line@)
}

/// Appends each header line to `out`, as it is and in order.
fn append_lines(out: &mut String, headers: &Vec<&str>)
    ensures
        final(out)@ == old(out)@ + line_views(headers@).flatten(),
{
    let ghost lines = line_views(headers@);
    let mut i: usize = 0;
    assert(lines.subrange(0, 0) =~= Seq::<Seq<char>>::empty());
    while i < headers.len()
        invariant
            i <= headers@.len(),
            lines == line_views(headers@),
            out@ == old(out)@ + lines.subrange(0, i as int).flatten(),
        decreases headers@.len() - i,
    {
        proof {
            let done = lines.subrange(0, i as int);
            assert(lines.subrange(0, i + 1) =~= done.push(lines[i as int]));
            done.lemma_flatten_push(lines[i as int]);
        }
        out.append(headers[i]);
        i += 1;
    }
    assert(lines.subrange(0, i as int) =~= lines);
}

/// Builds the text of an HTTP/1.1 request for `path` on `host`.
///
/// The first line names the method, the path behind a `/`, and the protocol
/// label; then come the `Host` line and the fixed lines. A `PUT` or `POST`
/// request goes on with the header lines, each as the caller wrote it, or
/// with the default content type where `headers` is empty, then with the
/// length of `data` in bytes, a blank line, `data` and a line end. Every
/// request ends with one more line end. `port` has no part in the text.
pub fn construct_get_request(
    protocol: &str,
    host: &str,
    port: &str,
    path: &str,
    method: &str,
    headers: Vec<&str>,
    data: &str,
) -> (request: String)
    ensures
        request@ == request_text(method@, host@, path@, line_views(headers@), data@),
{
    let mut res = String::new();
    res.append(method);
    res.append(" /");
    res.append(path);
    res.append(" ");
    res.append(get_protocol(protocol));
    res.append(CRLF);
    res.append("Host: ");
    res.append(host);
    res.append(CRLF);
    res.append(ACCEPT_LINE);
    res.append(CONNECTION_LINE);
    res.append(USER_AGENT_LINE);
    assert(res@ =~= request_head(method@, host@, path@));
    if str_eq(method, "PUT") || str_eq(method, "POST") {
        if headers.len() > 0 {
            append_lines(&mut res, &headers);
        } else {
            res.append(DEFAULT_CONTENT_TYPE);
        }
        res.append("Content-Length: ");
        append_decimal(&mut res, data.as_bytes().len());
        res.append(" \r\n\r\n");
        res.append(data);
        res.append(CRLF);
        assert(res@ =~= request_head(method@, host@, path@) + body_section(
            line_views(headers@),
            data@,
        ));
    }
    res.append(CRLF);
    assert(res@ =~= request_text(method@, host@, path@, line_views(headers@), data@));
    res
}

} // verus!
