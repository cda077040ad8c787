//! The exact-match router: a table from normalized path to handler, with a
//! default handler for everything else. Registration and resolution both
//! normalize, so `/a` and `/a/` share one route key.

use vstd::prelude::*;
use vstd::string::StringSliceAdditionalSpecFns;

use crate::assoc::{has_key, insert_assoc, key_at, key_idx, lemma_insert_assoc, lemma_key_at,
    uniq_keys, value_of};
use crate::http::{Protocol, Request, Response, StatusCode};
use crate::text::{bytes_eq, strip_last, strip_last_vec};

verus! {

/// A route key: the path with one trailing `/` stripped, so the root `/`
/// becomes the empty key.
pub open spec fn normalize_spec(p: Seq<u8>) -> Seq<u8> {
    strip_last(p, 47)
}

pub fn normalize(p: &[u8]) -> (r: Vec<u8>)
    ensures
        r@ == normalize_spec(p@),
{
    strip_last_vec(p, 47)
}

/// The model of a router: the route table as an association list from
/// normalized path to handler, plus the default handler.
pub ghost struct RouterModel<H> {
    pub table: Seq<(Seq<u8>, H)>,
    pub default: H,
}

/// An exact-match route table. `H` is the handler representation; the
/// hosting application instantiates it with its handler functions.
pub struct Router<H> {
    table: Vec<(Vec<u8>, H)>,
    default: H,
}

impl<H> View for Router<H> {
    type V = RouterModel<H>;

    closed spec fn view(&self) -> RouterModel<H> {
        RouterModel {
            table: Seq::new(self.table@.len(), |i: int| (self.table@[i].0@, self.table@[i].1)),
            default: self.default,
        }
    }
}

impl<H> Router<H> {
    /// No two table entries share a route key.
    pub open spec fn wf(&self) -> bool {
        uniq_keys(self@.table)
    }

    /// What resolution returns: the entry at the normalized key, or the
    /// default handler when no entry matches.
    pub open spec fn resolve_spec(m: RouterModel<H>, q: Seq<u8>) -> H {
        if has_key(m.table, normalize_spec(q)) {
            value_of(m.table, normalize_spec(q))
        } else {
            m.default
        }
    }

    pub fn new(default: H) -> (r: Router<H>)
        ensures
            r@.table == Seq::<(Seq<u8>, H)>::empty(),
            r@.default == default,
            r.wf(),
    {
        let r = Router { table: Vec::new(), default };
        proof {
            assert(r@.table =~= Seq::<(Seq<u8>, H)>::empty());
        }
        r
    }

    fn find_key(&self, k: &[u8]) -> (r: Option<usize>)
        ensures
            match r {
                Some(i) => key_idx(self@.table, k@) == Some(i as int) && (i as int)
                    < self@.table.len(),
                None => key_idx(self@.table, k@) is None,
            },
    {
        let mut i: usize = 0;
        while i < self.table.len()
            invariant
                0 <= i <= self@.table.len(),
                self@.table.len() == self.table@.len(),
                key_at(self@.table, k@, 0) == key_at(self@.table, k@, i as int),
            decreases self@.table.len() - i,
        {
            proof {
                assert(self@.table[i as int].0 == self.table@[i as int].0@);
            }
            if bytes_eq(self.table[i].0.as_slice(), k) {
                return Some(i);
            }
            i = i + 1;
        }
        None
    }

    /// Stores the handler under the normalized path; a later registration
    /// at the same key replaces the earlier handler.
    pub fn register(&mut self, path: &[u8], handler: H)
        requires
            old(self).wf(),
        ensures
            final(self)@.table == insert_assoc(
                old(self)@.table,
                normalize_spec(path@),
                handler,
            ),
            final(self)@.default == old(self)@.default,
            final(self).wf(),
    {
        proof {
            lemma_insert_assoc(self@.table, normalize_spec(path@), handler);
        }
        let key = normalize(path);
        let idx = self.find_key(key.as_slice());
        match idx {
            Some(i) => {
                self.table[i] = (key, handler);
                proof {
                    assert(self@.table =~= insert_assoc(
                        old(self)@.table,
                        normalize_spec(path@),
                        handler,
                    ));
                }
            },
            None => {
                self.table.push((key, handler));
                proof {
                    assert(self@.table =~= insert_assoc(
                        old(self)@.table,
                        normalize_spec(path@),
                        handler,
                    ));
                }
            },
        }
    }

    /// Replaces the handler served when no entry matches.
    pub fn set_default(&mut self, handler: H)
        ensures
            final(self)@.table == old(self)@.table,
            final(self)@.default == handler,
            final(self).wf() == old(self).wf(),
    {
        self.default = handler;
    }

    /// The handler registered at the normalized path, or the default.
    pub fn resolve(&self, path: &[u8]) -> (r: &H)
        ensures
            *r == Self::resolve_spec(self@, path@),
    {
        let key = normalize(path);
        match self.find_key(key.as_slice()) {
            Some(i) => {
                proof {
                    lemma_key_at(self@.table, key@, 0);
                }
                &self.table[i].1
            },
            None => &self.default,
        }
    }
}

/// Normalization is idempotent on route keys: a path without a trailing
/// slash is its own route key, and adding one trailing slash yields the
/// same key, itself stable under another normalization.
pub proof fn lemma_normalize(p: Seq<u8>)
    requires
        p.len() == 0 || p.last() != 47,
    ensures
        normalize_spec(p) == p,
        normalize_spec(p.push(47)) == p,
        normalize_spec(normalize_spec(p.push(47))) == normalize_spec(p.push(47)),
{
    assert(p.push(47).last() == 47);
    assert(p.push(47).drop_last() =~= p);
}

/// Router resolution: after registering a handler at `p` (no trailing
/// slash), both `p` and `p/` resolve to that handler, and every path
/// whose route key differs resolves as it did before the registration.
pub proof fn lemma_router_resolution<H>(r: RouterModel<H>, p: Seq<u8>, h: H)
    requires
        uniq_keys(r.table),
        p.len() == 0 || p.last() != 47,
    ensures
        ({
            let r2 = RouterModel { table: insert_assoc(r.table, normalize_spec(p), h), ..r };
            &&& Router::<H>::resolve_spec(r2, p) == h
            &&& Router::<H>::resolve_spec(r2, p.push(47)) == h
            &&& forall|q: Seq<u8>|
                normalize_spec(q) != normalize_spec(p) ==> Router::<H>::resolve_spec(r2, q)
                    == Router::<H>::resolve_spec(r, q)
        }),
{
    lemma_insert_assoc(r.table, normalize_spec(p), h);
    lemma_normalize(p);
}

/// The body of the built-in default response.
pub open spec fn not_found_body() -> Seq<u8> {
    "404 Not Found\nOops! Looks like Nessie took our page for a swim in the Loch".spec_bytes()
}

/// The built-in default handler: a 404 response with a short text body.
pub fn not_found(_req: Request) -> (r: Response)
    ensures
        r@.protocol == Protocol::Http1_1,
        r@.status == StatusCode::NotFound,
        r@.headers == Seq::<(Seq<u8>, Seq<u8>)>::empty(),
        r@.body == Some(not_found_body()),
        r.wf(),
{
    let mut r = Response::new();
    r.set_status_code(StatusCode::NotFound);
    r.set_body(
        vstd::slice::slice_to_vec(
            "404 Not Found\nOops! Looks like Nessie took our page for a swim in the Loch"
                .as_bytes(),
        ),
    );
    r
}

} // verus!
