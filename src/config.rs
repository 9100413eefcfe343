//! The CORS policy: which origins may call, which headers they may read, and
//! the headers that answer simple and preflight requests.

use crate::headers::{
    bytes_eq, copy_bytes, lookup, normalized_name, parse_header_name, parse_header_value,
    parse_method, valid_header_name, valid_header_value, HeaderSeq, Headers,
};
use std::sync::Arc;
use vstd::prelude::*;
use vstd::string::StringSliceAdditionalSpecFns;

verus! {

pub const ORIGIN: &'static str = "origin";

pub const ALLOW_ORIGIN: &'static str = "access-control-allow-origin";

pub const ALLOW_CREDENTIALS: &'static str = "access-control-allow-credentials";

pub const ALLOW_HEADERS: &'static str = "access-control-allow-headers";

pub const ALLOW_METHODS: &'static str = "access-control-allow-methods";

pub const EXPOSE_HEADERS: &'static str = "access-control-expose-headers";

pub const MAX_AGE: &'static str = "access-control-max-age";

pub const REQUEST_HEADERS: &'static str = "access-control-request-headers";

pub const REQUEST_METHOD: &'static str = "access-control-request-method";

pub const ALLOWED_METHODS_VALUE: &'static str = "POST,OPTIONS";

const DEFAULT_MAX_AGE: u64 = 86400;

/// Why a CORS check refused a request.
#[derive(Clone, Copy, Debug, PartialEq, Eq, Structural)]
pub enum CorsError {
    OriginNotAllowed,
    MethodNotAllowed,
}

/// The origins that may call: any, or only those listed.
#[derive(Clone, Debug)]
pub enum AllowedOrigins {
    Any,
    Only(Vec<Vec<u8>>),
}

/// Whether `o` is one of the values in `v`.
pub open spec fn listed(v: Seq<Vec<u8>>, o: Seq<u8>) -> bool {
    exists|i: int| 0 <= i < v.len() && #[trigger] v[i]@ == o
}

impl AllowedOrigins {
    pub open spec fn allows(&self, origin: Seq<u8>) -> bool {
        match self {
            AllowedOrigins::Any => true,
            AllowedOrigins::Only(v) => listed(v@, origin),
        }
    }

    /// Whether `origin` may call.
    pub fn is_allowed(&self, origin: &[u8]) -> (r: bool)
        ensures
            r == self.allows(origin@),
    {
        match self {
            AllowedOrigins::Any => true,
            AllowedOrigins::Only(origins) => {
                let mut i: usize = 0;
                while i < origins.len()
                    invariant
                        0 <= i <= origins@.len(),
                        self matches AllowedOrigins::Only(v) && v@ == origins@,
                        forall|j: int| 0 <= j < i ==> origins@[j]@ != origin@,
                    decreases origins@.len() - i,
                {
                    if bytes_eq(origins[i].as_slice(), origin) {
                        assert(origins@[i as int]@ == origin@);
                        assert(listed(origins@, origin@));
                        return true;
                    }
                    i = i + 1;
                }
                false
            },
        }
    }
}

/// The byte views of a list of names.
pub open spec fn names_view(v: Seq<Vec<u8>>) -> Seq<Seq<u8>> {
    v.map_values(|x: Vec<u8>| x@)
}

/// Adds `name` to `names` unless it is there already.
fn push_unique(names: &mut Vec<Vec<u8>>, name: Vec<u8>)
    requires
        names_view(old(names)@).no_duplicates(),
    ensures
        names_view(final(names)@).no_duplicates(),
        forall|x: Seq<u8>| #[trigger] names_view(final(names)@).contains(x) <==> (names_view(
            old(names)@,
        ).contains(x) || x == name@),
        names_view(old(names)@).contains(name@) ==> final(names)@ == old(names)@,
        !names_view(old(names)@).contains(name@) ==> names_view(final(names)@) == names_view(
            old(names)@,
        ).push(name@),
{
    let mut i: usize = 0;
    while i < names.len()
        invariant
            0 <= i <= names@.len(),
            names@ == old(names)@,
            names_view(old(names)@).no_duplicates(),
            forall|j: int| 0 <= j < i ==> names@[j]@ != name@,
        decreases names@.len() - i,
    {
        if bytes_eq(names[i].as_slice(), name.as_slice()) {
            assert(names_view(names@)[i as int] == name@);
            assert(names_view(names@).contains(name@));
            return;
        }
        i = i + 1;
    }
    let ghost before = names_view(names@);
    let ghost nv = name@;
    names.push(name);
    assert(names_view(names@) =~= before.push(nv));
    assert(!before.contains(nv)) by {
        if before.contains(nv) {
            let j = choose|j: int| 0 <= j < before.len() && before[j] == nv;
            assert(names@[j]@ != nv);
        }
    }
    assert forall|x: Seq<u8>| #[trigger] names_view(names@).contains(x) <==> (before.contains(x) || x == nv) by {
        if x == nv {
            assert(names_view(names@)[before.len() as int] == nv);
        }
        if before.contains(x) {
            let j = choose|j: int| 0 <= j < before.len() && before[j] == x;
            assert(names_view(names@)[j] == x);
        }
    }
}

/// The names joined by commas, in order.
pub open spec fn join_names(s: Seq<Seq<u8>>) -> Seq<u8>
    decreases s.len(),
{
    if s.len() == 0 {
        Seq::empty()
    } else if s.len() == 1 {
        s[0]
    } else {
        join_names(s.drop_last()) + seq![44u8] + s.last()
    }
}

/// The decimal digits of `n`.
pub open spec fn decimal(n: u64) -> Seq<u8>
    decreases n,
{
    if n < 10 {
        seq![(48 + n) as u8]
    } else {
        decimal(n / 10) + seq![(48 + n % 10) as u8]
    }
}

/// Relies on `http::HeaderValue`'s `From<u64>`: the value is the decimal text
/// of the number.
#[verifier::external_body]
fn decimal_value(n: u64) -> (r: Vec<u8>)
    ensures
        r@ == decimal(n),
{
    http::HeaderValue::from(n).as_bytes().to_vec()
}

proof fn lemma_default_names_distinct()
    ensures
        "grpc-status".spec_bytes().len() == 11,
        "grpc-message".spec_bytes().len() == 12,
{
    reveal_strlit("grpc-status");
    reveal_strlit("grpc-message");
    assert("grpc-status"@ =~= seq!['g', 'r', 'p', 'c', '-', 's', 't', 'a', 't', 'u', 's']);
    assert("grpc-message"@ =~= seq!['g', 'r', 'p', 'c', '-', 'm', 'e', 's', 's', 'a', 'g', 'e']);
    reveal_with_fuel(vstd::utf8::encode_utf8, 13);
}

/// The CORS configuration, built once and then only read.
#[derive(Clone, Debug)]
pub struct Config {
    allowed_origins: AllowedOrigins,
    exposed_headers: Vec<Vec<u8>>,
    max_age: Option<u64>,
    allow_credentials: bool,
}

impl Config {
    /// Whether `origin` may call.
    pub closed spec fn allows(&self, origin: Seq<u8>) -> bool {
        self.allowed_origins.allows(origin)
    }

    /// The header names a caller may read, each once.
    pub closed spec fn exposed(&self) -> Seq<Seq<u8>> {
        names_view(self.exposed_headers@)
    }

    /// How long, in seconds, a preflight answer may be cached.
    pub closed spec fn max_age_secs(&self) -> Option<u64> {
        self.max_age
    }

    /// Whether credentials are allowed.
    pub closed spec fn credentials(&self) -> bool {
        self.allow_credentials
    }

    pub closed spec fn wf(&self) -> bool {
        self.exposed().no_duplicates()
    }

    /// The default policy: any origin, `grpc-status` and `grpc-message`
    /// exposed, a max age of one day, credentials allowed.
    pub fn new() -> (r: Config)
        ensures
            r.wf(),
            forall|o: Seq<u8>| r.allows(o),
            r.exposed() == seq!["grpc-status".spec_bytes(), "grpc-message".spec_bytes()],
            r.max_age_secs() == Some(86400u64),
            r.credentials(),
    {
        proof {
            lemma_default_names_distinct();
        }
        let mut exposed: Vec<Vec<u8>> = Vec::new();
        assert(names_view(exposed@) =~= Seq::<Seq<u8>>::empty());
        push_unique(&mut exposed, "grpc-status".as_bytes_vec());
        push_unique(&mut exposed, "grpc-message".as_bytes_vec());
        Config {
            allowed_origins: AllowedOrigins::Any,
            exposed_headers: exposed,
            max_age: Some(DEFAULT_MAX_AGE),
            allow_credentials: true,
        }
    }

    /// Allows only the listed origins.
    pub fn allow_origins(self, origins: Vec<Vec<u8>>) -> (r: Config)
        requires
            forall|i: int| 0 <= i < origins@.len() ==> valid_header_value(#[trigger] origins@[i]@),
        ensures
            r.wf() == self.wf(),
            forall|o: Seq<u8>| r.allows(o) <==> exists|i: int| 0 <= i < origins@.len() && #[trigger] origins@[i]@ == o,
            r.exposed() == self.exposed(),
            r.max_age_secs() == self.max_age_secs(),
            r.credentials() == self.credentials(),
    {
        let mut only: Vec<Vec<u8>> = Vec::new();
        let mut i: usize = 0;
        while i < origins.len()
            invariant
                0 <= i <= origins@.len(),
                forall|j: int| 0 <= j < origins@.len() ==> valid_header_value(#[trigger] origins@[j]@),
                only@.len() == i,
                forall|j: int| 0 <= j < i ==> #[trigger] only@[j]@ == origins@[j]@,
            decreases origins@.len() - i,
        {
            match parse_header_value(origins[i].as_slice()) {
                Some(v) => only.push(v),
                None => {
                    assert(false);
                },
            }
            i = i + 1;
        }
        let r = Config { allowed_origins: AllowedOrigins::Only(only), ..self };
        assert(r.allowed_origins == AllowedOrigins::Only(only));
        assert forall|o: Seq<u8>| r.allows(o) <==> exists|i: int| 0 <= i < origins@.len() && #[trigger] origins@[i]@ == o by {
            if r.allows(o) {
                assert(r.allowed_origins.allows(o));
                let i = choose|i: int| 0 <= i < only@.len() && #[trigger] only@[i]@ == o;
                assert(origins@[i]@ == o);
            }
            if exists|i: int| 0 <= i < origins@.len() && #[trigger] origins@[i]@ == o {
                let i = choose|i: int| 0 <= i < origins@.len() && #[trigger] origins@[i]@ == o;
                assert(only@[i]@ == o);
                assert(listed(only@, o));
                assert(r.allowed_origins.allows(o));
            }
        }
        r
    }

    /// Adds header names that a caller may read, in lower case.
    pub fn expose_headers(self, headers: Vec<Vec<u8>>) -> (r: Config)
        requires
            self.wf(),
            forall|i: int| 0 <= i < headers@.len() ==> valid_header_name(#[trigger] headers@[i]@),
        ensures
            r.wf(),
            forall|x: Seq<u8>| #[trigger] r.exposed().contains(x) <==> (self.exposed().contains(x)
                || exists|i: int| 0 <= i < headers@.len() && normalized_name(#[trigger] headers@[i]@) == x),
            forall|o: Seq<u8>| r.allows(o) == self.allows(o),
            r.max_age_secs() == self.max_age_secs(),
            r.credentials() == self.credentials(),
    {
        let mut this = self;
        let mut i: usize = 0;
        while i < headers.len()
            invariant
                0 <= i <= headers@.len(),
                forall|j: int| 0 <= j < headers@.len() ==> valid_header_name(#[trigger] headers@[j]@),
                this.wf(),
                forall|o: Seq<u8>| this.allows(o) == self.allows(o),
                this.max_age_secs() == self.max_age_secs(),
                this.credentials() == self.credentials(),
                forall|x: Seq<u8>| #[trigger] this.exposed().contains(x) <==> (self.exposed().contains(x)
                    || exists|j: int| 0 <= j < i && normalized_name(#[trigger] headers@[j]@) == x),
            decreases headers@.len() - i,
        {
            match parse_header_name(headers[i].as_slice()) {
                Some(name) => {
                    let ghost nv = name@;
                    push_unique(&mut this.exposed_headers, name);
                    assert forall|x: Seq<u8>| #[trigger] this.exposed().contains(x) <==> (self.exposed().contains(x)
                        || exists|j: int| 0 <= j < i + 1 && normalized_name(#[trigger] headers@[j]@) == x) by {
                        if x == nv {
                            assert(normalized_name(headers@[i as int]@) == x);
                        }
                        if exists|j: int| 0 <= j < i + 1 && normalized_name(#[trigger] headers@[j]@) == x {
                            let j = choose|j: int| 0 <= j < i + 1 && normalized_name(#[trigger] headers@[j]@) == x;
                            if j < i {
                                assert(exists|j: int| 0 <= j < i && normalized_name(#[trigger] headers@[j]@) == x);
                            }
                        }
                    }
                },
                None => {
                    assert(false);
                },
            }
            i = i + 1;
        }
        this
    }

    /// Sets how long a preflight answer may be cached; `None` sends no max age.
    pub fn max_age(self, max_age: Option<u64>) -> (r: Config)
        ensures
            r.wf() == self.wf(),
            forall|o: Seq<u8>| r.allows(o) == self.allows(o),
            r.exposed() == self.exposed(),
            r.max_age_secs() == max_age,
            r.credentials() == self.credentials(),
    {
        Config { max_age, ..self }
    }

    /// Sets whether credentials are allowed.
    pub fn allow_credentials(self, allow_credentials: bool) -> (r: Config)
        ensures
            r.wf() == self.wf(),
            forall|o: Seq<u8>| r.allows(o) == self.allows(o),
            r.exposed() == self.exposed(),
            r.max_age_secs() == self.max_age_secs(),
            r.credentials() == allow_credentials,
    {
        Config { allow_credentials, ..self }
    }
}

impl Default for Config {
    fn default() -> (r: Config)
        ensures
            r.wf(),
            forall|o: Seq<u8>| r.allows(o),
            r.exposed() == seq!["grpc-status".spec_bytes(), "grpc-message".spec_bytes()],
            r.max_age_secs() == Some(86400u64),
            r.credentials(),
    {
        Config::new()
    }
}

/// The headers that answer an allowed origin.
pub open spec fn common_seq(config: Config, origin: Seq<u8>) -> HeaderSeq {
    seq![
        (ALLOW_ORIGIN.spec_bytes(), origin),
        (EXPOSE_HEADERS.spec_bytes(), join_names(config.exposed())),
    ] + if config.credentials() {
        seq![(ALLOW_CREDENTIALS.spec_bytes(), "true".spec_bytes())]
    } else {
        Seq::empty()
    }
}

/// The headers that answer an allowed preflight request.
pub open spec fn preflight_seq(config: Config, origin: Seq<u8>, request_headers: Seq<u8>) -> HeaderSeq {
    common_seq(config, origin) + seq![
        (ALLOW_METHODS.spec_bytes(), ALLOWED_METHODS_VALUE.spec_bytes()),
        (ALLOW_HEADERS.spec_bytes(), request_headers),
    ] + match config.max_age_secs() {
        Some(secs) => seq![(MAX_AGE.spec_bytes(), decimal(secs))],
        None => Seq::empty(),
    }
}

/// Whether a requested method is one that preflight allows.
pub open spec fn method_allowed(value: Option<Seq<u8>>) -> bool {
    value matches Some(m) && (m == "POST".spec_bytes() || m == "OPTIONS".spec_bytes())
}

/// A CORS policy over a shared configuration.
#[derive(Clone, Debug)]
pub struct Cors {
    inner: Arc<Config>,
}

impl Cors {
    pub closed spec fn config(&self) -> Config {
        *self.inner
    }

    pub fn new(config: Config) -> (r: Cors)
        ensures
            r.config() == config,
    {
        Cors { inner: Arc::new(config) }
    }

    /// Checks a simple (in-flight) request: without an Origin there is nothing
    /// to add; an allowed Origin gets the common headers; any other is refused.
    pub fn simple(&self, headers: &Headers) -> (r: Result<Headers, CorsError>)
        ensures
            match lookup(headers@, ORIGIN.spec_bytes()) {
                None => r matches Ok(h) && h@ == Seq::<(Seq<u8>, Seq<u8>)>::empty(),
                Some(o) => if self.config().allows(o) {
                    r matches Ok(h) && h@ == common_seq(self.config(), o)
                } else {
                    r == Err::<Headers, CorsError>(CorsError::OriginNotAllowed)
                },
            },
    {
        match headers.get(ORIGIN.as_bytes_vec().as_slice()) {
            Some(origin) => {
                if self.inner.allowed_origins.is_allowed(origin.as_slice()) {
                    Ok(self.common_headers(copy_bytes(origin.as_slice())))
                } else {
                    Err(CorsError::OriginNotAllowed)
                }
            },
            None => Ok(Headers::new()),
        }
    }

    /// Checks a preflight request for `origin`, which asks for the headers in
    /// `request_headers_header`.
    pub fn preflight(
        &self,
        req_headers: &Headers,
        origin: &Vec<u8>,
        request_headers_header: &Vec<u8>,
    ) -> (r: Result<Headers, CorsError>)
        ensures
            !self.config().allows(origin@) ==> r == Err::<Headers, CorsError>(
                CorsError::OriginNotAllowed,
            ),
            self.config().allows(origin@) && !method_allowed(
                lookup(req_headers@, REQUEST_METHOD.spec_bytes()),
            ) ==> r == Err::<Headers, CorsError>(CorsError::MethodNotAllowed),
            self.config().allows(origin@) && method_allowed(
                lookup(req_headers@, REQUEST_METHOD.spec_bytes()),
            ) ==> (r matches Ok(h) && h@ == preflight_seq(
                self.config(),
                origin@,
                request_headers_header@,
            )),
    {
        if !self.inner.allowed_origins.is_allowed(origin.as_slice()) {
            return Err(CorsError::OriginNotAllowed);
        }
        if !is_method_allowed(req_headers.get(REQUEST_METHOD.as_bytes_vec().as_slice())) {
            return Err(CorsError::MethodNotAllowed);
        }
        let mut headers = self.common_headers(copy_bytes(origin.as_slice()));
        let ghost common = headers@;
        headers.append(ALLOW_METHODS.as_bytes_vec(), ALLOWED_METHODS_VALUE.as_bytes_vec());
        headers.append(ALLOW_HEADERS.as_bytes_vec(), copy_bytes(request_headers_header.as_slice()));
        let ghost with_methods = headers@;
        match self.inner.max_age {
            Some(max_age) => {
                headers.append(MAX_AGE.as_bytes_vec(), decimal_value(max_age));
            },
            None => {},
        }
        assert(headers@ =~= preflight_seq(self.config(), origin@, request_headers_header@));
        Ok(headers)
    }

    /// The headers for an allowed origin: the origin echoed, the exposed
    /// names, and whether credentials are allowed.
    pub fn common_headers(&self, origin: Vec<u8>) -> (r: Headers)
        ensures
            r@ == common_seq(self.config(), origin@),
    {
        let mut headers = Headers::new();
        headers.append(ALLOW_ORIGIN.as_bytes_vec(), origin);
        headers.append(EXPOSE_HEADERS.as_bytes_vec(), join_header_value(&self.inner.exposed_headers));
        if self.inner.allow_credentials {
            headers.append(ALLOW_CREDENTIALS.as_bytes_vec(), "true".as_bytes_vec());
        }
        assert(headers@ =~= common_seq(self.config(), origin@));
        headers
    }
}

/// Whether the requested method (Access-Control-Request-Method) is POST or
/// OPTIONS.
pub fn is_method_allowed(header: Option<&Vec<u8>>) -> (r: bool)
    ensures
        r == method_allowed(
            match header {
                Some(v) => Some(v@),
                None => None,
            },
        ),
{
    match header {
        Some(value) => match parse_method(value.as_slice()) {
            Some(method) => bytes_eq(method.as_slice(), "POST".as_bytes_vec().as_slice())
                || bytes_eq(method.as_slice(), "OPTIONS".as_bytes_vec().as_slice()),
            None => false,
        },
        None => false,
    }
}

/// The values joined by commas, in order.
pub fn join_header_value(values: &Vec<Vec<u8>>) -> (r: Vec<u8>)
    ensures
        r@ == join_names(names_view(values@)),
{
    let mut value: Vec<u8> = Vec::new();
    let n = values.len();
    let mut i: usize = 0;
    while i < n
        invariant
            n == values@.len(),
            0 <= i <= n,
            value@ == join_names(names_view(values@).subrange(0, i as int)),
        decreases n - i,
    {
        let ghost before = value@;
        let ghost pre = names_view(values@).subrange(0, i + 1);
        assert(pre.drop_last() =~= names_view(values@).subrange(0, i as int));
        if i > 0 {
            value.push(44u8);
        }
        value.extend_from_slice(values[i].as_slice());
        proof {
            if i == 0 {
                assert(value@ =~= pre[0]);
            } else {
                assert(value@ =~= before + seq![44u8] + pre.last());
            }
        }
        i = i + 1;
    }
    assert(names_view(values@).subrange(0, n as int) =~= names_view(values@));
    value
}

} // verus!
