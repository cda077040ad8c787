//! The HTTP/1.x wire model: protocol, method and status enumerations, the
//! header mapping, and the `Request` and `Response` types with their
//! byte-level parser and serializer.
//!
//! A request buffer is parsed as: a request line of three space-separated
//! tokens (method, path, protocol), further header lines each split on the
//! first `:`, a blank-line separator `\r\n\r\n`, and the raw body. The
//! parser works on the bytes as received; it first checks that they are
//! valid UTF-8 text, as the wire grammar requires text.

use vstd::prelude::*;
use vstd::utf8::valid_utf8;

use crate::assoc::{
    has_key, insert_assoc, key_at, key_idx, lemma_insert_assoc, lemma_key_at,
    lemma_key_at_push, lemma_key_at_same_keys, uniq_keys, value_of,
};
use crate::router::normalize_spec;
use crate::text::{
    dec_of, find_byte, find_byte_at, find_sep, find_sep_at, low, low_byte, push_dec, strip_last,
    strip_last_vec, trim, trim_s,
};

verus! {

/// Why a request buffer was rejected.
#[derive(Clone, Copy, PartialEq, Eq, Structural, Debug)]
pub enum Error {
    /// The buffer is not valid UTF-8 text.
    InvalidText,
    /// The blank-line separator `\r\n\r\n` is absent.
    MissingBodySeparator,
    /// The request line has fewer than three space-separated tokens.
    MalformedRequestLine,
    /// The method token is not one of the supported verbs.
    InvalidMethod,
    /// The protocol token is not one of the supported versions.
    InvalidProtocol,
    /// A header line carries no `:`.
    MalformedHeaderLine,
}

#[derive(Clone, Copy, PartialEq, Eq, Structural, Debug)]
pub enum StatusCode {
    Okay,
    NoContent,
    NotFound,
}

#[derive(Clone, Copy, PartialEq, Eq, Structural, Debug)]
pub enum Protocol {
    Http1_1,
    Http1_0,
    Http0_9,
}

#[derive(Clone, Copy, PartialEq, Eq, Structural, Debug)]
pub enum Method {
    Post,
    Get,
}

/// The canonical request-line literal for a method: `GET` or `POST`.
pub open spec fn method_lit(m: Method) -> Seq<u8> {
    match m {
        Method::Get => seq![71u8, 69u8, 84u8],
        Method::Post => seq![80u8, 79u8, 83u8, 84u8],
    }
}

/// The canonical literal for a protocol version, e.g. `HTTP/1.1`.
pub open spec fn proto_lit(p: Protocol) -> Seq<u8> {
    match p {
        Protocol::Http1_1 => seq![72u8, 84u8, 84u8, 80u8, 47u8, 49u8, 46u8, 49u8],
        Protocol::Http1_0 => seq![72u8, 84u8, 84u8, 80u8, 47u8, 49u8, 46u8, 48u8],
        Protocol::Http0_9 => seq![72u8, 84u8, 84u8, 80u8, 47u8, 48u8, 46u8, 57u8],
    }
}

/// The three decimal digits of a status code, e.g. `200`.
pub open spec fn status_code_lit(s: StatusCode) -> Seq<u8> {
    match s {
        StatusCode::Okay => seq![50u8, 48u8, 48u8],
        StatusCode::NoContent => seq![50u8, 48u8, 52u8],
        StatusCode::NotFound => seq![52u8, 48u8, 52u8],
    }
}

/// The canonical reason phrase of a status code, e.g. `OK`.
pub open spec fn status_phrase_lit(s: StatusCode) -> Seq<u8> {
    match s {
        StatusCode::Okay => seq![79u8, 75u8],
        StatusCode::NoContent => seq![
            78u8,
            111u8,
            32u8,
            67u8,
            111u8,
            110u8,
            116u8,
            101u8,
            110u8,
            116u8,
        ],
        StatusCode::NotFound => seq![78u8, 111u8, 116u8, 32u8, 70u8, 111u8, 117u8, 110u8, 100u8],
    }
}

/// Case-insensitive match of the method token `GET`.
pub open spec fn is_get_tok(t: Seq<u8>) -> bool {
    t.len() == 3 && low(t[0]) == 103 && low(t[1]) == 101 && low(t[2]) == 116
}

/// Case-insensitive match of the method token `POST`.
pub open spec fn is_post_tok(t: Seq<u8>) -> bool {
    t.len() == 4 && low(t[0]) == 112 && low(t[1]) == 111 && low(t[2]) == 115 && low(t[3]) == 116
}

pub open spec fn method_of(t: Seq<u8>) -> Option<Method> {
    if is_get_tok(t) {
        Some(Method::Get)
    } else if is_post_tok(t) {
        Some(Method::Post)
    } else {
        None
    }
}

/// Case-insensitive match of `http/` followed by the digits `d1.d2`.
pub open spec fn proto_tok(t: Seq<u8>, d1: u8, d2: u8) -> bool {
    t.len() == 8 && low(t[0]) == 104 && low(t[1]) == 116 && low(t[2]) == 116 && low(t[3]) == 112
        && t[4] == 47 && t[5] == d1 && t[6] == 46 && t[7] == d2
}

pub open spec fn proto_of(t: Seq<u8>) -> Option<Protocol> {
    if proto_tok(t, 49, 49) {
        Some(Protocol::Http1_1)
    } else if proto_tok(t, 49, 48) {
        Some(Protocol::Http1_0)
    } else if proto_tok(t, 48, 57) {
        Some(Protocol::Http0_9)
    } else {
        None
    }
}

fn parse_method(t: &[u8]) -> (r: Option<Method>)
    ensures
        r == method_of(t@),
{
    if t.len() == 3 && low_byte(t[0]) == 103 && low_byte(t[1]) == 101 && low_byte(t[2]) == 116 {
        Some(Method::Get)
    } else if t.len() == 4 && low_byte(t[0]) == 112 && low_byte(t[1]) == 111 && low_byte(t[2])
        == 115 && low_byte(t[3]) == 116 {
        Some(Method::Post)
    } else {
        None
    }
}

fn parse_proto(t: &[u8]) -> (r: Option<Protocol>)
    ensures
        r == proto_of(t@),
{
    if t.len() != 8 {
        return None;
    }
    if !(low_byte(t[0]) == 104 && low_byte(t[1]) == 116 && low_byte(t[2]) == 116 && low_byte(t[3])
        == 112 && t[4] == 47 && t[6] == 46) {
        return None;
    }
    if t[5] == 49 && t[7] == 49 {
        Some(Protocol::Http1_1)
    } else if t[5] == 49 && t[7] == 48 {
        Some(Protocol::Http1_0)
    } else if t[5] == 48 && t[7] == 57 {
        Some(Protocol::Http0_9)
    } else {
        None
    }
}

/// A mapping from header name to header value. Entries keep the position
/// of the first write of a name; a later write to the same name replaces
/// the value (last write wins). No two entries share a name.
#[derive(Debug)]
pub struct HeaderMap {
    entries: Vec<(Vec<u8>, Vec<u8>)>,
}

impl View for HeaderMap {
    type V = Seq<(Seq<u8>, Seq<u8>)>;

    closed spec fn view(&self) -> Seq<(Seq<u8>, Seq<u8>)> {
        Seq::new(self.entries@.len(), |i: int| (self.entries@[i].0@, self.entries@[i].1@))
    }
}

impl HeaderMap {
    pub open spec fn wf(&self) -> bool {
        uniq_keys(self@)
    }

    pub fn new() -> (r: HeaderMap)
        ensures
            r@ == Seq::<(Seq<u8>, Seq<u8>)>::empty(),
            r.wf(),
    {
        let r = HeaderMap { entries: Vec::new() };
        proof {
            assert(r@ =~= Seq::<(Seq<u8>, Seq<u8>)>::empty());
        }
        r
    }

    fn idx_of(&self, k: &[u8]) -> (r: Option<usize>)
        ensures
            match r {
                Some(i) => key_idx(self@, k@) == Some(i as int) && (i as int) < self@.len(),
                None => key_idx(self@, k@) is None,
            },
    {
        let mut i: usize = 0;
        while i < self.entries.len()
            invariant
                0 <= i <= self@.len(),
                self@.len() == self.entries@.len(),
                key_at(self@, k@, 0) == key_at(self@, k@, i as int),
            decreases self@.len() - i,
        {
            proof {
                assert(self@[i as int].0 == self.entries@[i as int].0@);
            }
            if crate::text::bytes_eq(self.entries[i].0.as_slice(), k) {
                return Some(i);
            }
            i = i + 1;
        }
        None
    }

    pub fn insert(&mut self, k: Vec<u8>, v: Vec<u8>)
        requires
            old(self).wf(),
        ensures
            final(self)@ == insert_assoc(old(self)@, k@, v@),
            final(self).wf(),
    {
        proof {
            lemma_insert_assoc(self@, k@, v@);
        }
        let idx = self.idx_of(k.as_slice());
        match idx {
            Some(i) => {
                self.entries[i] = (k, v);
                proof {
                    assert(self@ =~= insert_assoc(old(self)@, k@, v@));
                }
            },
            None => {
                self.entries.push((k, v));
                proof {
                    assert(self@ =~= insert_assoc(old(self)@, k@, v@));
                }
            },
        }
    }

    pub fn get(&self, k: &[u8]) -> (r: Option<&Vec<u8>>)
        ensures
            match r {
                Some(v) => has_key(self@, k@) && v@ == value_of(self@, k@),
                None => !has_key(self@, k@),
            },
    {
        match self.idx_of(k) {
            Some(i) => {
                proof {
                    assert(self@[i as int].1 == self.entries@[i as int].1@);
                }
                Some(&self.entries[i].1)
            },
            None => None,
        }
    }

    pub fn len(&self) -> (r: usize)
        ensures
            r == self@.len(),
    {
        self.entries.len()
    }

    fn entry_at(&self, i: usize) -> (r: (&Vec<u8>, &Vec<u8>))
        requires
            i < self@.len(),
        ensures
            r.0@ == self@[i as int].0,
            r.1@ == self@[i as int].1,
    {
        (&self.entries[i].0, &self.entries[i].1)
    }
}

/// The model of a response under construction.
pub ghost struct RespModel {
    pub protocol: Protocol,
    pub status: StatusCode,
    pub headers: Seq<(Seq<u8>, Seq<u8>)>,
    pub body: Option<Seq<u8>>,
}

/// A response as a handler builds it: protocol and status with their
/// defaults, headers, and an optional body. `Content-Length` is computed
/// during serialization only and never stored here.
#[derive(Debug)]
pub struct Response {
    protocol: Protocol,
    status: StatusCode,
    headers: HeaderMap,
    body: Option<Vec<u8>>,
}

impl View for Response {
    type V = RespModel;

    closed spec fn view(&self) -> RespModel {
        RespModel {
            protocol: self.protocol,
            status: self.status,
            headers: self.headers@,
            body: match self.body {
                Some(b) => Some(b@),
                None => None,
            },
        }
    }
}

impl Response {
    /// No two stored header entries share a name.
    pub open spec fn wf(&self) -> bool {
        uniq_keys(self@.headers)
    }

    /// A response with the defaults: `HTTP/1.1`, status 200, no headers,
    /// no body.
    pub fn new() -> (r: Response)
        ensures
            r@.protocol == Protocol::Http1_1,
            r@.status == StatusCode::Okay,
            r@.headers == Seq::<(Seq<u8>, Seq<u8>)>::empty(),
            (r@.body is None),
            r.wf(),
    {
        Response {
            protocol: Protocol::Http1_1,
            status: StatusCode::Okay,
            headers: HeaderMap::new(),
            body: None,
        }
    }

    pub fn set_status_code(&mut self, status: StatusCode)
        ensures
            final(self)@ == (RespModel { status, ..old(self)@ }),
            final(self).wf() == old(self).wf(),
    {
        self.status = status;
    }

    /// Stores a header; a later write to the same name wins.
    pub fn add_header(&mut self, key: Vec<u8>, value: Vec<u8>)
        requires
            old(self).wf(),
        ensures
            final(self)@ == (RespModel {
                headers: insert_assoc(old(self)@.headers, key@, value@),
                ..old(self)@
            }),
            final(self).wf(),
    {
        self.headers.insert(key, value);
    }

    pub fn set_body(&mut self, body: Vec<u8>)
        ensures
            final(self)@ == (RespModel { body: Some(body@), ..old(self)@ }),
            final(self).wf() == old(self).wf(),
    {
        self.body = Some(body);
    }

    /// Produces the exact wire bytes of the response and consumes the
    /// body: serializing again yields a body-less response's bytes. The
    /// stored headers are left as they were; `Content-Length` exists only
    /// in the output.
    #[verifier::rlimit(50)]
    pub fn serialise(&mut self) -> (r: Vec<u8>)
        requires
            old(self).wf(),
        ensures
            r@ == serial_spec(old(self)@),
            final(self)@ == (RespModel { body: None, ..old(self)@ }),
            final(self).wf(),
    {
        let body = self.body.take();
        let ghost eff = eff_headers(old(self)@.headers, old(self)@.body);
        let cl = cl_key_vec();
        let mut dv: Vec<u8> = Vec::new();
        let has_body = match &body {
            Some(_) => true,
            None => false,
        };
        match &body {
            Some(b) => {
                push_dec(&mut dv, b.len());
                proof {
                    assert(Seq::<u8>::empty() + dec_of(b@.len()) =~= dec_of(b@.len()));
                }
            },
            None => {},
        }
        let cl_pos = self.headers.idx_of(cl.as_slice());
        proof {
            if old(self)@.body is Some {
                lemma_insert_assoc(old(self)@.headers, cl_key(), dec_of(old(self)@.body->0.len()));
            }
        }
        let mut out: Vec<u8> = Vec::new();
        push_proto(&mut out, self.protocol);
        push_byte(&mut out, 32);
        push_code(&mut out, self.status);
        push_byte(&mut out, 32);
        push_phrase(&mut out, self.status);
        push_byte(&mut out, 13);
        push_byte(&mut out, 10);
        let ghost sl = out@;
        let n = self.headers.len();
        let mut i: usize = 0;
        proof {
            assert(eff.take(0) =~= Seq::<(Seq<u8>, Seq<u8>)>::empty());
        }
        #[verifier::loop_isolation(false)]
        while i < n
            invariant
                0 <= i <= n,
                out@ == sl + headers_bytes(eff.take(i as int)),
            decreases n - i,
        {
            proof {
                assert(eff.take(i as int + 1).drop_last() =~= eff.take(i as int));
                assert(eff.take(i as int + 1).last() == eff[i as int]);
            }
            let emit_cl = match cl_pos {
                Some(j) => has_body && j == i,
                None => false,
            };
            if emit_cl {
                push_entry(&mut out, cl.as_slice(), dv.as_slice());
                proof {
                    assert(eff[i as int] == (cl@, dv@));
                }
            } else {
                let e = self.headers.entry_at(i);
                push_entry(&mut out, e.0.as_slice(), e.1.as_slice());
                proof {
                    assert(eff[i as int].0 == old(self)@.headers[i as int].0);
                    assert(eff[i as int].1 == old(self)@.headers[i as int].1);
                }
            }
            i = i + 1;
        }
        let append_cl = match cl_pos {
            Some(_) => false,
            None => has_body,
        };
        if append_cl {
            push_entry(&mut out, cl.as_slice(), dv.as_slice());
            proof {
                assert(eff.drop_last() =~= eff.take(n as int));
                assert(eff.last() == (cl@, dv@));
                assert(out@ == sl + headers_bytes(eff));
            }
        } else {
            proof {
                assert(eff.take(n as int) =~= eff);
            }
        }
        push_byte(&mut out, 13);
        push_byte(&mut out, 10);
        match &body {
            Some(b) => {
                push_bytes(&mut out, b.as_slice());
            },
            None => {},
        }
        proof {
            assert(out@ =~= serial_spec(old(self)@));
        }
        out
    }
}

/// The `Content-Length` header name.
pub open spec fn cl_key() -> Seq<u8> {
    seq![67u8, 111u8, 110u8, 116u8, 101u8, 110u8, 116u8, 45u8, 76u8, 101u8, 110u8, 103u8, 116u8, 104u8]
}

/// The wire form of one header entry: `name: value\r\n`.
pub open spec fn entry_bytes(k: Seq<u8>, v: Seq<u8>) -> Seq<u8> {
    k + seq![58u8, 32u8] + v + seq![13u8, 10u8]
}

/// The wire form of a header list, in stored order.
pub open spec fn headers_bytes(s: Seq<(Seq<u8>, Seq<u8>)>) -> Seq<u8>
    decreases s.len(),
{
    if s.len() == 0 {
        Seq::empty()
    } else {
        headers_bytes(s.drop_last()) + entry_bytes(s.last().0, s.last().1)
    }
}

/// The header list a response is serialized with: when a body is set, a
/// `Content-Length` entry carrying its byte length joins the stored
/// headers (replacing a stored entry of that name in place).
pub open spec fn eff_headers(h: Seq<(Seq<u8>, Seq<u8>)>, body: Option<Seq<u8>>) -> Seq<
    (Seq<u8>, Seq<u8>),
> {
    match body {
        None => h,
        Some(b) => insert_assoc(h, cl_key(), dec_of(b.len())),
    }
}

/// The exact wire bytes of a response: status line, headers (with the
/// body-derived `Content-Length` when a body is set), a blank line, and
/// the body bytes.
pub open spec fn serial_spec(r: RespModel) -> Seq<u8> {
    proto_lit(r.protocol) + seq![32u8] + status_code_lit(r.status) + seq![32u8]
        + status_phrase_lit(r.status) + seq![13u8, 10u8] + headers_bytes(
        eff_headers(r.headers, r.body),
    ) + seq![13u8, 10u8] + (match r.body {
        Some(b) => b,
        None => Seq::empty(),
    })
}

fn push_byte(out: &mut Vec<u8>, b: u8)
    ensures
        final(out)@ == old(out)@ + seq![b],
{
    out.push(b);
    proof {
        assert(out@ =~= old(out)@ + seq![b]);
    }
}

fn push_bytes(out: &mut Vec<u8>, s: &[u8])
    ensures
        final(out)@ == old(out)@ + s@,
{
    let mut i: usize = 0;
    #[verifier::loop_isolation(false)]
    while i < s.len()
        invariant
            0 <= i <= s@.len(),
            out@ == old(out)@ + s@.take(i as int),
        decreases s@.len() - i,
    {
        out.push(s[i]);
        proof {
            assert(old(out)@ + s@.take(i as int) + seq![s@[i as int]] =~= old(out)@ + s@.take(
                i as int + 1,
            ));
        }
        i = i + 1;
    }
    proof {
        assert(s@.take(s@.len() as int) =~= s@);
    }
}

fn push_proto(out: &mut Vec<u8>, p: Protocol)
    ensures
        final(out)@ == old(out)@ + proto_lit(p),
{
    out.push(72);
    out.push(84);
    out.push(84);
    out.push(80);
    out.push(47);
    match p {
        Protocol::Http1_1 => {
            out.push(49);
            out.push(46);
            out.push(49);
            proof {
                assert(out@ =~= old(out)@ + proto_lit(p));
            }
        },
        Protocol::Http1_0 => {
            out.push(49);
            out.push(46);
            out.push(48);
            proof {
                assert(out@ =~= old(out)@ + proto_lit(p));
            }
        },
        Protocol::Http0_9 => {
            out.push(48);
            out.push(46);
            out.push(57);
            proof {
                assert(out@ =~= old(out)@ + proto_lit(p));
            }
        },
    }
}

fn push_code(out: &mut Vec<u8>, s: StatusCode)
    ensures
        final(out)@ == old(out)@ + status_code_lit(s),
{
    match s {
        StatusCode::Okay => {
            out.push(50);
            out.push(48);
            out.push(48);
            proof {
                assert(out@ =~= old(out)@ + status_code_lit(s));
            }
        },
        StatusCode::NoContent => {
            out.push(50);
            out.push(48);
            out.push(52);
            proof {
                assert(out@ =~= old(out)@ + status_code_lit(s));
            }
        },
        StatusCode::NotFound => {
            out.push(52);
            out.push(48);
            out.push(52);
            proof {
                assert(out@ =~= old(out)@ + status_code_lit(s));
            }
        },
    }
}

fn push_phrase(out: &mut Vec<u8>, s: StatusCode)
    ensures
        final(out)@ == old(out)@ + status_phrase_lit(s),
{
    match s {
        StatusCode::Okay => {
            out.push(79);
            out.push(75);
            proof {
                assert(out@ =~= old(out)@ + status_phrase_lit(s));
            }
        },
        StatusCode::NoContent => {
            out.push(78);
            out.push(111);
            out.push(32);
            out.push(67);
            out.push(111);
            out.push(110);
            out.push(116);
            out.push(101);
            out.push(110);
            out.push(116);
            proof {
                assert(out@ =~= old(out)@ + status_phrase_lit(s));
            }
        },
        StatusCode::NotFound => {
            out.push(78);
            out.push(111);
            out.push(116);
            out.push(32);
            out.push(70);
            out.push(111);
            out.push(117);
            out.push(110);
            out.push(100);
            proof {
                assert(out@ =~= old(out)@ + status_phrase_lit(s));
            }
        },
    }
}

fn push_entry(out: &mut Vec<u8>, k: &[u8], v: &[u8])
    ensures
        final(out)@ == old(out)@ + entry_bytes(k@, v@),
{
    push_bytes(out, k);
    push_byte(out, 58);
    push_byte(out, 32);
    push_bytes(out, v);
    push_byte(out, 13);
    push_byte(out, 10);
    proof {
        assert(out@ =~= old(out)@ + entry_bytes(k@, v@));
    }
}

fn cl_key_vec() -> (r: Vec<u8>)
    ensures
        r@ == cl_key(),
{
    let mut r: Vec<u8> = Vec::new();
    r.push(67);
    r.push(111);
    r.push(110);
    r.push(116);
    r.push(101);
    r.push(110);
    r.push(116);
    r.push(45);
    r.push(76);
    r.push(101);
    r.push(110);
    r.push(103);
    r.push(116);
    r.push(104);
    proof {
        assert(r@ =~= cl_key());
    }
    r
}

/// The model of a parsed request: plain mathematical values for each field.
pub ghost struct RequestModel {
    pub protocol: Protocol,
    pub method: Method,
    pub path: Seq<u8>,
    pub headers: Seq<(Seq<u8>, Seq<u8>)>,
    pub body: Seq<u8>,
}

/// A parsed request. The path is stored normalized (one trailing slash
/// stripped); the body is the raw remainder after the separator.
#[derive(Debug)]
pub struct Request {
    protocol: Protocol,
    method: Method,
    path: Vec<u8>,
    headers: HeaderMap,
    body: Vec<u8>,
}

impl View for Request {
    type V = RequestModel;

    closed spec fn view(&self) -> RequestModel {
        RequestModel {
            protocol: self.protocol,
            method: self.method,
            path: self.path@,
            headers: self.headers@,
            body: self.body@,
        }
    }
}

/// The first line of a header block: up to the first `\n`, with one
/// trailing `\r` stripped.
pub open spec fn first_line(s: Seq<u8>) -> Seq<u8> {
    match find_byte_at(s, 10, 0) {
        Some(i) => strip_last(s.take(i), 13),
        None => strip_last(s, 13),
    }
}

/// What follows the first line of a header block; empty when the block
/// holds a single line (a trailing empty segment is dropped).
pub open spec fn rest_after_line(s: Seq<u8>) -> Seq<u8> {
    match find_byte_at(s, 10, 0) {
        Some(i) => if 0 <= i < s.len() {
            s.subrange(i + 1, s.len() as int)
        } else {
            Seq::empty()
        },
        None => Seq::empty(),
    }
}

/// The request line's three tokens, split on spaces; anything after a
/// third space is ignored. `None` when fewer than three tokens exist.
pub open spec fn req_tokens(l: Seq<u8>) -> Option<(Seq<u8>, Seq<u8>, Seq<u8>)> {
    match find_byte_at(l, 32, 0) {
        None => None,
        Some(a) => match find_byte_at(l, 32, a + 1) {
            None => None,
            Some(b) => {
                let t2 = match find_byte_at(l, 32, b + 1) {
                    None => l.skip(b + 1),
                    Some(c) => l.subrange(b + 1, c),
                };
                Some((l.take(a), l.subrange(a + 1, b), t2))
            },
        },
    }
}

/// Folds the header lines of `s` into a header mapping, last write wins;
/// `None` as soon as a line carries no `:`.
pub open spec fn hdrs_from(s: Seq<u8>, acc: Seq<(Seq<u8>, Seq<u8>)>) -> Option<
    Seq<(Seq<u8>, Seq<u8>)>,
>
    decreases s.len(),
{
    if s.len() == 0 {
        Some(acc)
    } else {
        let line = first_line(s);
        match find_byte_at(line, 58, 0) {
            None => None,
            Some(c) => hdrs_from(
                rest_after_line(s),
                insert_assoc(acc, trim_s(line.take(c)), trim_s(line.skip(c + 1))),
            ),
        }
    }
}

/// The parse of a header block (request line and header lines) and body.
pub open spec fn parse_head(head: Seq<u8>, body: Seq<u8>) -> Result<RequestModel, Error> {
    match req_tokens(first_line(head)) {
        None => Err(Error::MalformedRequestLine),
        Some((t0, t1, t2)) => match method_of(t0) {
            None => Err(Error::InvalidMethod),
            Some(m) => match proto_of(t2) {
                None => Err(Error::InvalidProtocol),
                Some(p) => match hdrs_from(rest_after_line(head), Seq::empty()) {
                    None => Err(Error::MalformedHeaderLine),
                    Some(h) => Ok(
                        RequestModel {
                            protocol: p,
                            method: m,
                            path: normalize_spec(t1),
                            headers: h,
                            body: body,
                        },
                    ),
                },
            },
        },
    }
}

/// The full parse of a received buffer: text check, split on the first
/// `\r\n\r\n`, then the header block and the raw body.
pub open spec fn parse_req(s: Seq<u8>) -> Result<RequestModel, Error> {
    if !valid_utf8(s) {
        Err(Error::InvalidText)
    } else {
        match find_sep_at(s, 0) {
            None => Err(Error::MissingBodySeparator),
            Some(sep) => parse_head(s.take(sep), s.skip(sep + 4)),
        }
    }
}

/// The request-line tokens of a buffer, as the parser splits them.
pub open spec fn req_tokens_of(s: Seq<u8>) -> Option<(Seq<u8>, Seq<u8>, Seq<u8>)> {
    match find_sep_at(s, 0) {
        None => None,
        Some(sep) => req_tokens(first_line(s.take(sep))),
    }
}

/// Round trip of the request line: when a buffer parses and its tokens
/// are written canonically (`GET`/`POST`, `HTTP/x.y`, a path without a
/// trailing slash), the parsed request returns exactly those tokens as
/// its method literal, protocol literal, and path.
pub proof fn lemma_parse_round_trip(
    s: Seq<u8>,
    t0: Seq<u8>,
    t1: Seq<u8>,
    t2: Seq<u8>,
    m: RequestModel,
)
    requires
        parse_req(s) == Ok::<RequestModel, Error>(m),
        req_tokens_of(s) == Some((t0, t1, t2)),
        t0 == method_lit(Method::Get) || t0 == method_lit(Method::Post),
        t2 == proto_lit(Protocol::Http1_1) || t2 == proto_lit(Protocol::Http1_0) || t2
            == proto_lit(Protocol::Http0_9),
        t1.len() == 0 || t1.last() != 47,
    ensures
        method_lit(m.method) == t0,
        proto_lit(m.protocol) == t2,
        m.path == t1,
{
    if t0 == method_lit(Method::Get) {
        assert(is_get_tok(t0));
        assert(m.method == Method::Get);
    } else {
        assert(!is_get_tok(t0));
        assert(is_post_tok(t0));
        assert(m.method == Method::Post);
    }
    if t2 == proto_lit(Protocol::Http1_1) {
        assert(proto_tok(t2, 49, 49));
        assert(m.protocol == Protocol::Http1_1);
    } else if t2 == proto_lit(Protocol::Http1_0) {
        assert(proto_tok(t2, 49, 48));
        assert(!proto_tok(t2, 49, 49));
        assert(m.protocol == Protocol::Http1_0);
    } else {
        assert(proto_tok(t2, 48, 57));
        assert(!proto_tok(t2, 49, 49));
        assert(!proto_tok(t2, 49, 48));
        assert(m.protocol == Protocol::Http0_9);
    }
    assert(m.path == crate::router::normalize_spec(t1));
    assert(m.path == t1);
}

pub proof fn lemma_headers_bytes_append(a: Seq<(Seq<u8>, Seq<u8>)>, b: Seq<(Seq<u8>, Seq<u8>)>)
    ensures
        headers_bytes(a + b) == headers_bytes(a) + headers_bytes(b),
    decreases b.len(),
{
    if b.len() == 0 {
        assert(a + b =~= a);
        assert(headers_bytes(b) == Seq::<u8>::empty());
        assert(headers_bytes(a) + Seq::<u8>::empty() =~= headers_bytes(a));
    } else {
        assert((a + b).drop_last() =~= a + b.drop_last());
        lemma_headers_bytes_append(a, b.drop_last());
        assert((a + b).last() == b.last());
        assert(headers_bytes(a) + headers_bytes(b.drop_last()) + entry_bytes(
            b.last().0,
            b.last().1,
        ) =~= headers_bytes(a) + headers_bytes(b));
    }
}

/// Content-Length discipline: with a body set, the emitted header list
/// carries a `Content-Length` entry whose value is the body's byte
/// length in decimal, and the serialized bytes contain that entry's wire
/// form; with no body set, the emitted header list is the stored one, so
/// no body-derived entry appears.
pub proof fn lemma_content_length(r: RespModel)
    requires
        uniq_keys(r.headers),
    ensures
        (r.body matches Some(b) ==> has_key(eff_headers(r.headers, r.body), cl_key())
            && value_of(eff_headers(r.headers, r.body), cl_key()) == dec_of(b.len())
            && (exists|x: Seq<u8>, y: Seq<u8>|
                serial_spec(r) == x + entry_bytes(cl_key(), dec_of(b.len())) + y)),
        (r.body is None ==> eff_headers(r.headers, r.body) == r.headers),
        (r.body is None && !has_key(r.headers, cl_key()) ==> !has_key(
            eff_headers(r.headers, r.body),
            cl_key(),
        )),
{
    if r.body is Some {
        let b = r.body->0;
        lemma_insert_assoc(r.headers, cl_key(), dec_of(b.len()));
        let e = eff_headers(r.headers, r.body);
        lemma_key_at(e, cl_key(), 0);
        let i = key_idx(e, cl_key())->0;
        assert(e[i] == (cl_key(), dec_of(b.len()))) by {
            match key_idx(r.headers, cl_key()) {
                Some(j) => {
                    lemma_key_at(r.headers, cl_key(), 0);
                    lemma_key_at_same_keys(e, r.headers, cl_key(), 0);
                    assert(i == j);
                },
                None => {
                    lemma_key_at_push(r.headers, (cl_key(), dec_of(b.len())), cl_key(), 0);
                    assert(i == r.headers.len());
                },
            }
        }
        assert(e =~= e.take(i + 1) + e.skip(i + 1));
        lemma_headers_bytes_append(e.take(i + 1), e.skip(i + 1));
        assert(e.take(i + 1).drop_last() =~= e.take(i));
        assert(e.take(i + 1).last() == e[i]);
        assert(headers_bytes(e) == headers_bytes(e.take(i)) + entry_bytes(
            cl_key(),
            dec_of(b.len()),
        ) + headers_bytes(e.skip(i + 1)));
        let x = proto_lit(r.protocol) + seq![32u8] + status_code_lit(r.status) + seq![32u8]
            + status_phrase_lit(r.status) + seq![13u8, 10u8] + headers_bytes(e.take(i));
        let y = headers_bytes(e.skip(i + 1)) + seq![13u8, 10u8] + b;
        assert(serial_spec(r) =~= x + entry_bytes(cl_key(), dec_of(b.len())) + y);
    }
}

/// Relies on core::str::from_utf8, which returns `Ok` exactly when the
/// bytes are valid UTF-8; vstd's `valid_utf8` states that predicate.
#[verifier::external_body]
fn utf8_ok(b: &[u8]) -> (r: bool)
    ensures
        r == valid_utf8(b@),
{
    core::str::from_utf8(b).is_ok()
}

/// Splits off the first line of a block: the line with one trailing `\r`
/// stripped, and the remainder after the first `\n`.
fn split_line(s: &[u8]) -> (r: (Vec<u8>, Vec<u8>))
    ensures
        r.0@ == first_line(s@),
        r.1@ == rest_after_line(s@),
        s@.len() > 0 ==> r.1@.len() < s@.len(),
{
    let n = s.len();
    match find_byte(s, 10, 0) {
        Some(i) => {
            let line = strip_last_vec(vstd::slice::slice_subrange(s, 0, i), 13);
            let rest = vstd::slice::slice_to_vec(vstd::slice::slice_subrange(s, i + 1, n));
            proof {
                assert(s@.subrange(0, i as int) =~= s@.take(i as int));
            }
            (line, rest)
        },
        None => {
            let line = strip_last_vec(s, 13);
            (line, Vec::new())
        },
    }
}

impl Request {
    /// No two stored header entries share a name.
    pub open spec fn wf(&self) -> bool {
        uniq_keys(self@.headers)
    }

    pub fn method(&self) -> (r: &Method)
        ensures
            *r == self@.method,
    {
        &self.method
    }

    pub fn protocol(&self) -> (r: &Protocol)
        ensures
            *r == self@.protocol,
    {
        &self.protocol
    }

    pub fn path(&self) -> (r: &Vec<u8>)
        ensures
            r@ == self@.path,
    {
        &self.path
    }

    pub fn body(&self) -> (r: &Vec<u8>)
        ensures
            r@ == self@.body,
    {
        &self.body
    }

    /// The value stored for a header name, if any.
    pub fn header(&self, name: &[u8]) -> (r: Option<&Vec<u8>>)
        ensures
            match r {
                Some(v) => has_key(self@.headers, name@) && v@ == value_of(self@.headers, name@),
                None => !has_key(self@.headers, name@),
            },
    {
        self.headers.get(name)
    }

    /// Parses a received byte buffer into a request, or reports exactly
    /// why the buffer does not match the wire grammar.
    pub fn from_bytes(buf: &[u8]) -> (r: Result<Request, Error>)
        ensures
            match r {
                Ok(req) => parse_req(buf@) == Ok::<RequestModel, Error>(req@) && req.wf(),
                Err(e) => parse_req(buf@) == Err::<RequestModel, Error>(e),
            },
    {
        if !utf8_ok(buf) {
            return Err(Error::InvalidText);
        }
        let sep = match find_sep(buf) {
            Some(i) => i,
            None => {
                return Err(Error::MissingBodySeparator);
            },
        };
        let buf_len = buf.len();
        let head = vstd::slice::slice_subrange(buf, 0, sep);
        let body = vstd::slice::slice_to_vec(vstd::slice::slice_subrange(buf, sep + 4, buf_len));
        proof {
            assert(head@ =~= buf@.take(sep as int));
            assert(body@ =~= buf@.skip(sep as int + 4));
        }
        let (line, hrest) = split_line(head);
        let line_len = line.len();
        let a = match find_byte(line.as_slice(), 32, 0) {
            Some(a) => a,
            None => {
                return Err(Error::MalformedRequestLine);
            },
        };
        let b = match find_byte(line.as_slice(), 32, a + 1) {
            Some(b) => b,
            None => {
                return Err(Error::MalformedRequestLine);
            },
        };
        let t0 = vstd::slice::slice_subrange(line.as_slice(), 0, a);
        let t1 = vstd::slice::slice_subrange(line.as_slice(), a + 1, b);
        let t2 = match find_byte(line.as_slice(), 32, b + 1) {
            None => vstd::slice::slice_subrange(line.as_slice(), b + 1, line_len),
            Some(c) => vstd::slice::slice_subrange(line.as_slice(), b + 1, c),
        };
        proof {
            assert(t0@ =~= line@.take(a as int));
            assert(line@.subrange(b as int + 1, line@.len() as int) =~= line@.skip(b as int + 1));
            assert(req_tokens(line@) == Some((t0@, t1@, t2@)));
        }
        let m = match parse_method(t0) {
            Some(m) => m,
            None => {
                return Err(Error::InvalidMethod);
            },
        };
        let p = match parse_proto(t2) {
            Some(p) => p,
            None => {
                return Err(Error::InvalidProtocol);
            },
        };
        let ghost h0 = rest_after_line(head@);
        let mut hmap = HeaderMap::new();
        let mut rest = hrest;
        #[verifier::loop_isolation(false)]
        while rest.len() > 0
            invariant
                hmap.wf(),
                hdrs_from(h0, Seq::<(Seq<u8>, Seq<u8>)>::empty()) == hdrs_from(rest@, hmap@),
            decreases rest@.len(),
        {
            let (line2, rest2) = split_line(rest.as_slice());
            let c = match find_byte(line2.as_slice(), 58, 0) {
                Some(c) => c,
                None => {
                    proof {
                        assert(hdrs_from(rest@, hmap@) is None);
                        assert(hdrs_from(h0, Seq::<(Seq<u8>, Seq<u8>)>::empty()) is None);
                        assert(parse_head(buf@.take(sep as int), buf@.skip(sep as int + 4))
                            == Err::<RequestModel, Error>(Error::MalformedHeaderLine));
                        assert(parse_req(buf@) == Err::<RequestModel, Error>(
                            Error::MalformedHeaderLine,
                        ));
                    }
                    return Err(Error::MalformedHeaderLine);
                },
            };
            let line2_len = line2.len();
            let name = trim(vstd::slice::slice_subrange(line2.as_slice(), 0, c));
            let value = trim(
                vstd::slice::slice_subrange(line2.as_slice(), c + 1, line2_len),
            );
            proof {
                assert(line2@.subrange(0, c as int) =~= line2@.take(c as int));
                assert(line2@.subrange(c as int + 1, line2@.len() as int) =~= line2@.skip(
                    c as int + 1,
                ));
            }
            hmap.insert(name, value);
            rest = rest2;
        }
        let path = crate::router::normalize(t1);
        let req = Request { protocol: p, method: m, path, headers: hmap, body };
        proof {
            assert(parse_req(buf@) == Ok::<RequestModel, Error>(req@));
        }
        Ok(req)
    }
}

} // verus!
