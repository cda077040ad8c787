use wee_http::{Error, Method, Protocol, Request, Response, StatusCode};

#[test]
fn respond_to_ping() {
    let request = "POST / HTTP/1.1\r\nHost: 6095-143-159-233-243.ngrok-free.app\r\nUser-Agent: Discord-Interactions/1.0 (+https://discord.com)\r\nContent-Length: 577\r\nContent-Type: application/json\r\nX-Forwarded-Proto: https\r\nX-Signature-Ed25519: 9a10c00a02d8b5d56bf17f3059790c9603a0bba41d8e\r\nAccept-Encoding: gzip\r\n\r\n{\"app_permissions\":\"180224\",\"application_id\":\"1216441490306502796\",\"entitlements\":[],\"id\":\"1218320751015235605\",\"token\":\"foo\",\"type\":1,\"user\":{\"avatar\":\"c6a249645d462\",\"avatar_decoration_data\":null,\"bot\":true,\"discriminator\":\"0000\",\"global_name\":\"Discord\",\"id\":\"6439452\",\"public_flags\":1,\"system\":true,\"username\":\"discord\"},\"version\":1}";

    let http = Request::from_bytes(request.as_bytes());
    assert!(http.is_ok());
}

#[test]
fn no_body() {
    let request = "POST / HTTP/1.1\r\n\r\n";
    let http = Request::from_bytes(request.as_bytes());
    assert!(http.is_ok());
}

#[test]
fn parses_simple_get() {
    let req = Request::from_bytes(b"GET / HTTP/1.1\r\nHost: x\r\n\r\n").unwrap();
    assert_eq!(*req.method(), Method::Get);
    assert_eq!(*req.protocol(), Protocol::Http1_1);
    assert_eq!(req.path().as_slice(), b"");
    assert_eq!(req.header(b"Host").unwrap().as_slice(), b"x");
    assert_eq!(req.body().as_slice(), b"");
}

#[test]
fn parses_post_without_body() {
    let req = Request::from_bytes(b"POST /a HTTP/1.1\r\n\r\n").unwrap();
    assert_eq!(*req.method(), Method::Post);
    assert_eq!(req.path().as_slice(), b"/a");
    assert_eq!(req.body().as_slice(), b"");
}

#[test]
fn parses_body_and_strips_trailing_slash() {
    let req = Request::from_bytes(b"get /ping/ http/1.0\r\nA: 1\r\nB:  two \r\n\r\nhello").unwrap();
    assert_eq!(*req.method(), Method::Get);
    assert_eq!(*req.protocol(), Protocol::Http1_0);
    assert_eq!(req.path().as_slice(), b"/ping");
    assert_eq!(req.header(b"A").unwrap().as_slice(), b"1");
    assert_eq!(req.header(b"B").unwrap().as_slice(), b"two");
    assert_eq!(req.body().as_slice(), b"hello");
}

#[test]
fn duplicate_header_last_write_wins() {
    let req = Request::from_bytes(b"GET / HTTP/1.1\r\nK: one\r\nK: two\r\n\r\n").unwrap();
    assert_eq!(req.header(b"K").unwrap().as_slice(), b"two");
}

#[test]
fn missing_separator_fails() {
    let r = Request::from_bytes(b"GET / HTTP/1.1\r\nHost: x");
    assert_eq!(r.unwrap_err(), Error::MissingBodySeparator);
    assert_eq!(Request::from_bytes(b"").unwrap_err(), Error::MissingBodySeparator);
}

#[test]
fn invalid_utf8_fails() {
    let r = Request::from_bytes(b"GET / HTTP/1.1\r\n\r\n\xff\xfe");
    assert_eq!(r.unwrap_err(), Error::InvalidText);
}

#[test]
fn short_request_line_fails() {
    let r = Request::from_bytes(b"GET /\r\n\r\n");
    assert_eq!(r.unwrap_err(), Error::MalformedRequestLine);
    assert_eq!(Request::from_bytes(b"\r\n\r\n").unwrap_err(), Error::MalformedRequestLine);
}

#[test]
fn unsupported_method_fails() {
    let r = Request::from_bytes(b"PUT / HTTP/1.1\r\n\r\n");
    assert_eq!(r.unwrap_err(), Error::InvalidMethod);
}

#[test]
fn unsupported_protocol_fails() {
    let r = Request::from_bytes(b"GET / SPDY/3.1\r\n\r\n");
    assert_eq!(r.unwrap_err(), Error::InvalidProtocol);
}

#[test]
fn header_without_colon_fails() {
    let r = Request::from_bytes(b"GET / HTTP/1.1\r\nnocolon\r\n\r\n");
    assert_eq!(r.unwrap_err(), Error::MalformedHeaderLine);
}

#[test]
fn serialises_body_with_content_length() {
    let mut res = Response::new();
    res.set_body(b"hi".to_vec());
    let bytes = res.serialise();
    assert_eq!(bytes.as_slice(), b"HTTP/1.1 200 OK\r\nContent-Length: 2\r\n\r\nhi".as_ref());
}

#[test]
fn serialises_without_body_omits_content_length() {
    let mut res = Response::new();
    res.set_status_code(StatusCode::NoContent);
    let bytes = res.serialise();
    assert_eq!(bytes.as_slice(), b"HTTP/1.1 204 No Content\r\n\r\n".as_ref());
}

#[test]
fn content_length_counts_bytes_exactly() {
    let mut res = Response::new();
    res.set_body(vec![120u8; 1234]);
    let bytes = res.serialise();
    let text = String::from_utf8(bytes).unwrap();
    assert!(text.starts_with("HTTP/1.1 200 OK\r\nContent-Length: 1234\r\n\r\n"));
    assert_eq!(text.len(), "HTTP/1.1 200 OK\r\nContent-Length: 1234\r\n\r\n".len() + 1234);
}

#[test]
fn stored_content_length_is_overwritten_in_output() {
    let mut res = Response::new();
    res.add_header(b"Content-Length".to_vec(), b"999".to_vec());
    res.set_body(b"abc".to_vec());
    let bytes = res.serialise();
    assert_eq!(
        bytes.as_slice(),
        b"HTTP/1.1 200 OK\r\nContent-Length: 3\r\n\r\nabc".as_ref()
    );
}

#[test]
fn serialising_consumes_the_body() {
    let mut res = Response::new();
    res.set_body(b"once".to_vec());
    let first = res.serialise();
    assert_eq!(
        first.as_slice(),
        b"HTTP/1.1 200 OK\r\nContent-Length: 4\r\n\r\nonce".as_ref()
    );
    let second = res.serialise();
    assert_eq!(second.as_slice(), b"HTTP/1.1 200 OK\r\n\r\n".as_ref());
}

#[test]
fn add_header_last_write_wins_in_place() {
    let mut res = Response::new();
    res.add_header(b"A".to_vec(), b"1".to_vec());
    res.add_header(b"B".to_vec(), b"2".to_vec());
    res.add_header(b"A".to_vec(), b"3".to_vec());
    let bytes = res.serialise();
    assert_eq!(bytes.as_slice(), b"HTTP/1.1 200 OK\r\nA: 3\r\nB: 2\r\n\r\n".as_ref());
}

#[test]
fn round_trips_canonical_request_line() {
    let req = Request::from_bytes(b"POST /items HTTP/1.0\r\n\r\n").unwrap();
    let method = match *req.method() {
        Method::Get => "GET",
        Method::Post => "POST",
    };
    let protocol = match *req.protocol() {
        Protocol::Http1_1 => "HTTP/1.1",
        Protocol::Http1_0 => "HTTP/1.0",
        Protocol::Http0_9 => "HTTP/0.9",
    };
    assert_eq!(method, "POST");
    assert_eq!(protocol, "HTTP/1.0");
    assert_eq!(req.path().as_slice(), b"/items");
}

#[test]
fn two_connections_interleaved_stay_independent() {
    let buf_a: &[u8] = b"GET /a HTTP/1.1\r\n\r\n";
    let buf_b: &[u8] = b"POST /b HTTP/1.1\r\n\r\npayload";
    let req_a = Request::from_bytes(buf_a).unwrap();
    let req_b = Request::from_bytes(buf_b).unwrap();
    let mut res_a = Response::new();
    res_a.set_body(req_a.path().clone());
    let mut res_b = Response::new();
    res_b.set_body(req_b.body().clone());
    let out_b = res_b.serialise();
    let out_a = res_a.serialise();
    assert_eq!(out_a.as_slice(), b"HTTP/1.1 200 OK\r\nContent-Length: 2\r\n\r\n/a".as_ref());
    assert_eq!(
        out_b.as_slice(),
        b"HTTP/1.1 200 OK\r\nContent-Length: 7\r\n\r\npayload".as_ref()
    );
}
