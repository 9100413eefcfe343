//! Request classification and the dispatch decision that ties the CORS policy
//! and the codec together.

use crate::codec::{content_type_of, header_encoding, Encoding};
use crate::config::{
    common_seq, method_allowed, preflight_seq, Config, Cors, ORIGIN, REQUEST_HEADERS,
    REQUEST_METHOD,
};
use crate::headers::{bytes_eq, copy_bytes, lookup, HeaderSeq, Headers};
use crate::{ACCEPT, CONTENT_TYPE, GRPC_WEB, GRPC_WEB_PROTO, GRPC_WEB_TEXT, GRPC_WEB_TEXT_PROTO};
use vstd::prelude::*;
use vstd::string::StringSliceAdditionalSpecFns;

verus! {

pub const CONTENT_LENGTH: &'static str = "content-length";

pub const TE: &'static str = "te";

pub const ACCEPT_ENCODING: &'static str = "accept-encoding";

pub const GRPC: &'static str = "application/grpc";

pub const GRPC_WEB_HEADER: &'static str = "x-grpc-web";

pub const STATUS_NO_CONTENT: u16 = 204;

pub const STATUS_BAD_REQUEST: u16 = 400;

pub const STATUS_FORBIDDEN: u16 = 403;

pub const STATUS_METHOD_NOT_ALLOWED: u16 = 405;

/// The HTTP version of a request.
#[derive(Clone, Copy, Debug, PartialEq, Eq, Structural)]
pub enum HttpVersion {
    Http09,
    Http10,
    Http11,
    Http2,
    Http3,
}

/// What kind of request arrived.
#[derive(Debug)]
pub enum RequestKind {
    /// A gRPC-Web call, with its method and the encodings of its body and of
    /// the answer it accepts.
    InFlight { method: Vec<u8>, encoding: Encoding, accept: Encoding },
    /// A CORS preflight for a gRPC-Web call.
    PreFlight { origin: Vec<u8>, request_headers: Vec<u8> },
    /// Anything else.
    Other(HttpVersion),
}

/// Whether a Content-Type names one of the gRPC-Web media types.
pub open spec fn is_grpc_web_type(value: Option<Seq<u8>>) -> bool {
    value matches Some(t) && (t == GRPC_WEB.spec_bytes() || t == GRPC_WEB_PROTO.spec_bytes()
        || t == GRPC_WEB_TEXT.spec_bytes() || t == GRPC_WEB_TEXT_PROTO.spec_bytes())
}

/// Whether every byte is visible ASCII or a tab, so that the value reads as text.
pub open spec fn is_visible_ascii(s: Seq<u8>) -> bool {
    forall|i: int| 0 <= i < s.len() ==> ((32 <= #[trigger] s[i] && s[i] < 127) || s[i] == 9)
}

/// Whether `needle` occurs in `s`.
pub open spec fn contains_bytes(s: Seq<u8>, needle: Seq<u8>) -> bool {
    exists|i: int| 0 <= i && i + needle.len() <= s.len() && #[trigger] s.subrange(i, i + needle.len()) == needle
}

/// Whether a request is a gRPC-Web call.
pub open spec fn is_in_flight(headers: HeaderSeq) -> bool {
    is_grpc_web_type(lookup(headers, CONTENT_TYPE.spec_bytes()))
}

/// Whether a request that is no gRPC-Web call is a preflight for one.
pub open spec fn is_preflight(headers: HeaderSeq, method: Seq<u8>) -> bool {
    &&& method == "OPTIONS".spec_bytes()
    &&& lookup(headers, ORIGIN.spec_bytes()) is Some
    &&& lookup(headers, REQUEST_HEADERS.spec_bytes()) matches Some(v)
    &&& is_visible_ascii(v) && contains_bytes(v, GRPC_WEB_HEADER.spec_bytes())
}

fn visible_ascii(s: &[u8]) -> (r: bool)
    ensures
        r == is_visible_ascii(s@),
{
    let mut i: usize = 0;
    while i < s.len()
        invariant
            0 <= i <= s@.len(),
            forall|j: int| 0 <= j < i ==> ((32 <= #[trigger] s@[j] && s@[j] < 127) || s@[j] == 9),
        decreases s@.len() - i,
    {
        let b = s[i];
        if !((32 <= b && b < 127) || b == 9) {
            return false;
        }
        i = i + 1;
    }
    true
}

fn find_bytes(s: &[u8], needle: &[u8]) -> (r: bool)
    ensures
        r == contains_bytes(s@, needle@),
{
    if needle.len() > s.len() {
        return false;
    }
    let slen = s.len();
    let last = slen - needle.len();
    let mut i: usize = 0;
    loop
        invariant
            last + needle@.len() == s@.len(),
            slen == s@.len(),
            0 <= i <= last,
            forall|j: int| 0 <= j < i ==> #[trigger] s@.subrange(j, j + needle@.len()) != needle@,
        decreases last - i,
    {
        let mut k: usize = 0;
        let mut same = true;
        while k < needle.len()
            invariant
                i <= last,
                last + needle@.len() == s@.len(),
                slen == s@.len(),
                0 <= k <= needle@.len(),
                same == forall|m: int| 0 <= m < k ==> s@[i + m] == needle@[m],
            decreases needle@.len() - k,
        {
            if s[i + k] != needle[k] {
                same = false;
            }
            k = k + 1;
        }
        if same {
            assert(s@.subrange(i as int, i + needle@.len()) =~= needle@);
            return true;
        }
        assert(s@.subrange(i as int, i + needle@.len()) != needle@) by {
            let m = choose|m: int| 0 <= m < needle@.len() && s@[i + m] != needle@[m];
            assert(s@.subrange(i as int, i + needle@.len())[m] != needle@[m]);
        }
        if i == last {
            assert forall|j: int| 0 <= j && j + needle@.len() <= s@.len() implies #[trigger] s@.subrange(
                j,
                j + needle@.len(),
            ) != needle@ by {
                assert(j <= i);
            }
            return false;
        }
        i = i + 1;
    }
}

impl RequestKind {
    /// Classifies a request by its headers, method and version.
    pub fn new(headers: &Headers, method: &[u8], version: HttpVersion) -> (r: RequestKind)
        ensures
            is_in_flight(headers@) ==> (r matches RequestKind::InFlight { method: m, encoding, accept }
                && m@ == method@
                && encoding == header_encoding(lookup(headers@, CONTENT_TYPE.spec_bytes()))
                && accept == header_encoding(lookup(headers@, ACCEPT.spec_bytes()))),
            !is_in_flight(headers@) && is_preflight(headers@, method@) ==> (
            r matches RequestKind::PreFlight { origin, request_headers }
                && lookup(headers@, ORIGIN.spec_bytes()) == Some(origin@)
                && lookup(headers@, REQUEST_HEADERS.spec_bytes()) == Some(request_headers@)),
            !is_in_flight(headers@) && !is_preflight(headers@, method@) ==> r == RequestKind::Other(
                version,
            ),
    {
        let content_type = headers.get(CONTENT_TYPE.as_bytes_vec().as_slice());
        let web = match content_type {
            Some(t) => {
                let t = t.as_slice();
                bytes_eq(t, GRPC_WEB.as_bytes_vec().as_slice()) || bytes_eq(t, GRPC_WEB_PROTO.as_bytes_vec().as_slice())
                    || bytes_eq(t, GRPC_WEB_TEXT.as_bytes_vec().as_slice()) || bytes_eq(t, GRPC_WEB_TEXT_PROTO.as_bytes_vec().as_slice())
            },
            None => false,
        };
        if web {
            return RequestKind::InFlight {
                method: copy_bytes(method),
                encoding: Encoding::from_content_type(headers),
                accept: Encoding::from_accept(headers),
            };
        }
        if bytes_eq(method, "OPTIONS".as_bytes_vec().as_slice()) {
            match (headers.get(ORIGIN.as_bytes_vec().as_slice()), headers.get(REQUEST_HEADERS.as_bytes_vec().as_slice())) {
                (Some(origin), Some(value)) => {
                    if visible_ascii(value.as_slice()) && find_bytes(value.as_slice(), GRPC_WEB_HEADER.as_bytes_vec().as_slice()) {
                        return RequestKind::PreFlight {
                            origin: copy_bytes(origin.as_slice()),
                            request_headers: copy_bytes(value.as_slice()),
                        };
                    }
                },
                _ => {},
            }
        }
        RequestKind::Other(version)
    }
}

proof fn lemma_request_names_distinct()
    ensures
        CONTENT_LENGTH.spec_bytes().len() == 14,
        CONTENT_TYPE.spec_bytes().len() == 12,
        TE.spec_bytes().len() == 2,
        ACCEPT_ENCODING.spec_bytes().len() == 15,
{
    reveal_strlit("content-length");
    reveal_strlit("content-type");
    reveal_strlit("te");
    reveal_strlit("accept-encoding");
    assert(CONTENT_LENGTH@ =~= seq!['c', 'o', 'n', 't', 'e', 'n', 't', '-', 'l', 'e', 'n', 'g', 't', 'h']);
    assert(CONTENT_TYPE@ =~= seq!['c', 'o', 'n', 't', 'e', 'n', 't', '-', 't', 'y', 'p', 'e']);
    assert(TE@ =~= seq!['t', 'e']);
    assert(ACCEPT_ENCODING@ =~= seq!['a', 'c', 'c', 'e', 'p', 't', '-', 'e', 'n', 'c', 'o', 'd', 'i', 'n', 'g']);
    reveal_with_fuel(vstd::utf8::encode_utf8, 16);
}

/// Rewrites the headers of a gRPC-Web call for a native gRPC service: no
/// Content-Length, Content-Type `application/grpc`, `te: trailers`, and the
/// usual Accept-Encoding.
pub fn coerce_request_headers(headers: &mut Headers)
    ensures
        lookup(final(headers)@, CONTENT_LENGTH.spec_bytes()) is None,
        lookup(final(headers)@, CONTENT_TYPE.spec_bytes()) == Some(GRPC.spec_bytes()),
        lookup(final(headers)@, TE.spec_bytes()) == Some("trailers".spec_bytes()),
        lookup(final(headers)@, ACCEPT_ENCODING.spec_bytes()) == Some("identity,deflate,gzip".spec_bytes()),
        forall|m: Seq<u8>|
            m != CONTENT_LENGTH.spec_bytes() && m != CONTENT_TYPE.spec_bytes() && m != TE.spec_bytes()
                && m != ACCEPT_ENCODING.spec_bytes() ==> #[trigger] lookup(final(headers)@, m) == lookup(
                old(headers)@,
                m,
            ),
{
    proof {
        lemma_request_names_distinct();
    }
    headers.remove(CONTENT_LENGTH.as_bytes_vec().as_slice());
    headers.insert(CONTENT_TYPE.as_bytes_vec(), GRPC.as_bytes_vec());
    headers.insert(TE.as_bytes_vec(), "trailers".as_bytes_vec());
    headers.insert(ACCEPT_ENCODING.as_bytes_vec(), "identity,deflate,gzip".as_bytes_vec());
}

/// Sets the Content-Type of a response to the gRPC-Web type for `encoding`.
pub fn coerce_response_headers(headers: &mut Headers, encoding: Encoding)
    ensures
        lookup(final(headers)@, CONTENT_TYPE.spec_bytes()) == Some(content_type_of(encoding).spec_bytes()),
        forall|m: Seq<u8>| m != CONTENT_TYPE.spec_bytes() ==> #[trigger] lookup(final(headers)@, m)
            == lookup(old(headers)@, m),
{
    headers.insert(CONTENT_TYPE.as_bytes_vec(), encoding.to_content_type().as_bytes_vec());
}

/// What to do with a request.
#[derive(Debug)]
pub enum Route {
    /// Call the service: decode the request body from `encoding`, encode the
    /// response body for `accept`, and add `cors` to the response headers.
    Forward { encoding: Encoding, accept: Encoding, cors: Headers },
    /// Answer at once with this status, these headers and an empty body.
    Respond { status: u16, headers: Headers },
    /// Hand the request to the service unchanged.
    PassThrough,
}

/// Whether `r` answers at once with `status`, no headers and no body.
pub open spec fn responds_empty(r: Route, status: u16) -> bool {
    r matches Route::Respond { status: s, headers: h } && s == status && h@.len() == 0
}

/// The layer that puts a `WebService` in front of a service.
#[derive(Clone, Debug)]
pub struct WebLayer {
    cors: Cors,
}

impl WebLayer {
    pub closed spec fn config(&self) -> Config {
        self.cors.config()
    }

    pub fn new(cors: Cors) -> (r: WebLayer)
        ensures
            r.config() == cors.config(),
    {
        WebLayer { cors }
    }

    /// Wraps `inner`.
    pub fn layer<S>(self, inner: S) -> (r: WebService<S>)
        ensures
            r.config() == self.config(),
            r.inner_service() == inner,
    {
        WebService::new(inner, self.cors)
    }
}

/// A service that lets gRPC-Web clients call `inner`.
#[derive(Clone, Debug)]
pub struct WebService<S> {
    inner: S,
    cors: Cors,
}

impl<S> WebService<S> {
    pub closed spec fn config(&self) -> Config {
        self.cors.config()
    }

    pub closed spec fn inner_service(&self) -> S {
        self.inner
    }

    pub fn new(inner: S, cors: Cors) -> (r: WebService<S>)
        ensures
            r.config() == cors.config(),
            r.inner_service() == inner,
    {
        WebService { inner, cors }
    }

    /// The wrapped service.
    pub fn inner(&self) -> (r: &S)
        ensures
            *r == self.inner_service(),
    {
        &self.inner
    }

    /// Decides what to do with a request: gRPC-Web POST calls that pass the
    /// CORS check go to the service, other gRPC-Web methods get 405, preflights
    /// get 204 or 403, HTTP/2 requests pass through, anything else gets 400.
    pub fn route(&self, headers: &Headers, method: &[u8], version: HttpVersion) -> (r: Route)
        ensures
            is_in_flight(headers@) && method@ == "POST".spec_bytes() ==> match lookup(
                headers@,
                ORIGIN.spec_bytes(),
            ) {
                Some(o) if !self.config().allows(o) => responds_empty(r, STATUS_FORBIDDEN),
                origin => r matches Route::Forward { encoding, accept, cors }
                    && encoding == header_encoding(lookup(headers@, CONTENT_TYPE.spec_bytes()))
                    && accept == header_encoding(lookup(headers@, ACCEPT.spec_bytes()))
                    && cors@ == match origin {
                    Some(o) => common_seq(self.config(), o),
                    None => Seq::empty(),
                },
            },
            is_in_flight(headers@) && method@ != "POST".spec_bytes() ==> responds_empty(
                r,
                STATUS_METHOD_NOT_ALLOWED,
            ),
            !is_in_flight(headers@) && is_preflight(headers@, method@) ==> ({
                let o = lookup(headers@, ORIGIN.spec_bytes()).unwrap();
                let h = lookup(headers@, REQUEST_HEADERS.spec_bytes()).unwrap();
                if self.config().allows(o) && method_allowed(
                    lookup(headers@, REQUEST_METHOD.spec_bytes()),
                ) {
                    r matches Route::Respond { status, headers: out } && status == STATUS_NO_CONTENT
                        && out@ == preflight_seq(self.config(), o, h)
                } else {
                    responds_empty(r, STATUS_FORBIDDEN)
                }
            }),
            !is_in_flight(headers@) && !is_preflight(headers@, method@) ==> if version
                == HttpVersion::Http2 {
                r is PassThrough
            } else {
                responds_empty(r, STATUS_BAD_REQUEST)
            },
    {
        match RequestKind::new(headers, method, version) {
            RequestKind::InFlight { method, encoding, accept } => {
                if bytes_eq(method.as_slice(), "POST".as_bytes_vec().as_slice()) {
                    match self.cors.simple(headers) {
                        Ok(cors) => Route::Forward { encoding, accept, cors },
                        Err(_) => Route::Respond { status: STATUS_FORBIDDEN, headers: Headers::new() },
                    }
                } else {
                    Route::Respond { status: STATUS_METHOD_NOT_ALLOWED, headers: Headers::new() }
                }
            },
            RequestKind::PreFlight { origin, request_headers } => {
                match self.cors.preflight(headers, &origin, &request_headers) {
                    Ok(out) => Route::Respond { status: STATUS_NO_CONTENT, headers: out },
                    Err(_) => Route::Respond { status: STATUS_FORBIDDEN, headers: Headers::new() },
                }
            },
            RequestKind::Other(v) => {
                if v == HttpVersion::Http2 {
                    Route::PassThrough
                } else {
                    Route::Respond { status: STATUS_BAD_REQUEST, headers: Headers::new() }
                }
            },
        }
    }
}

} // verus!
