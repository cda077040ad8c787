use wee_http::{Request, Response, Router, normalize, not_found};

#[test]
fn normalization_is_idempotent_on_route_keys() {
    assert_eq!(normalize(b"/foo").as_slice(), b"/foo");
    assert_eq!(normalize(b"/foo/").as_slice(), b"/foo");
    let once = normalize(b"/foo/");
    assert_eq!(normalize(once.as_slice()), once);
    assert_eq!(normalize(b"/").as_slice(), b"");
    assert_eq!(normalize(b"").as_slice(), b"");
}

#[test]
fn resolves_with_and_without_trailing_slash() {
    let mut router: Router<u32> = Router::new(0);
    router.register(b"/a", 1);
    assert_eq!(*router.resolve(b"/a"), 1);
    assert_eq!(*router.resolve(b"/a/"), 1);
    assert_eq!(*router.resolve(b"/b"), 0);
    assert_eq!(*router.resolve(b""), 0);
}

#[test]
fn registration_normalizes_and_overwrites() {
    let mut router: Router<u32> = Router::new(0);
    router.register(b"/a/", 1);
    assert_eq!(*router.resolve(b"/a"), 1);
    router.register(b"/a", 2);
    assert_eq!(*router.resolve(b"/a"), 2);
    assert_eq!(*router.resolve(b"/a/"), 2);
}

#[test]
fn root_and_empty_share_one_key() {
    let mut router: Router<u32> = Router::new(0);
    router.register(b"/", 7);
    assert_eq!(*router.resolve(b"/"), 7);
    assert_eq!(*router.resolve(b""), 7);
}

#[test]
fn resolves_handler_functions() {
    fn hello(_req: Request) -> Response {
        let mut r = Response::new();
        r.set_body(b"hello".to_vec());
        r
    }
    let mut router: Router<fn(Request) -> Response> = Router::new(not_found);
    router.register(b"/hello", hello);
    let req = Request::from_bytes(b"GET /hello HTTP/1.1\r\n\r\n").unwrap();
    let handler = *router.resolve(req.path().as_slice());
    let mut res = handler(req);
    assert_eq!(
        res.serialise().as_slice(),
        b"HTTP/1.1 200 OK\r\nContent-Length: 5\r\n\r\nhello".as_ref()
    );
}

#[test]
fn default_handler_serves_not_found() {
    let req = Request::from_bytes(b"GET /missing HTTP/1.1\r\n\r\n").unwrap();
    let mut res = not_found(req);
    let bytes = res.serialise();
    let text = String::from_utf8(bytes).unwrap();
    assert!(text.starts_with("HTTP/1.1 404 Not Found\r\nContent-Length: 74\r\n\r\n"));
    assert!(text.ends_with("404 Not Found\nOops! Looks like Nessie took our page for a swim in the Loch"));
}
