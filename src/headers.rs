//! An ordered list of header fields, as names and values in bytes.

use vstd::prelude::*;
use vstd::string::StringSliceAdditionalSpecFns;

verus! {

/// Header fields as (name, value) byte sequences, in order.
pub type HeaderSeq = Seq<(Seq<u8>, Seq<u8>)>;

/// The first value stored under `name`, as a header map's `get` returns it.
pub open spec fn lookup(s: HeaderSeq, name: Seq<u8>) -> Option<Seq<u8>>
    decreases s.len(),
{
    if s.len() == 0 {
        None
    } else if s[0].0 == name {
        Some(s[0].1)
    } else {
        lookup(s.drop_first(), name)
    }
}

pub proof fn lemma_lookup_push(s: HeaderSeq, e: (Seq<u8>, Seq<u8>), m: Seq<u8>)
    ensures
        lookup(s.push(e), m) == (if lookup(s, m) is Some {
            lookup(s, m)
        } else if e.0 == m {
            Some(e.1)
        } else {
            None
        }),
    decreases s.len(),
{
    if s.len() > 0 {
        assert(s.push(e).drop_first() =~= s.drop_first().push(e));
        assert(s.push(e)[0] == s[0]);
        lemma_lookup_push(s.drop_first(), e, m);
    } else {
        assert(s.push(e).drop_first() =~= Seq::<(Seq<u8>, Seq<u8>)>::empty());
        assert(lookup(s.push(e).drop_first(), m) is None);
    }
}

/// Byte-wise equality of two slices.
pub fn bytes_eq(a: &[u8], b: &[u8]) -> (r: bool)
    ensures
        r == (a@ == b@),
{
    if a.len() != b.len() {
        return false;
    }
    let mut i: usize = 0;
    while i < a.len()
        invariant
            a@.len() == b@.len(),
            0 <= i <= a@.len(),
            forall|j: int| 0 <= j < i ==> a@[j] == b@[j],
        decreases a@.len() - i,
    {
        if a[i] != b[i] {
            return false;
        }
        i = i + 1;
    }
    assert(a@ =~= b@);
    true
}

/// A copy of a byte slice.
pub fn copy_bytes(a: &[u8]) -> (r: Vec<u8>)
    ensures
        r@ == a@,
{
    let mut r: Vec<u8> = Vec::with_capacity(a.len());
    let mut i: usize = 0;
    while i < a.len()
        invariant
            0 <= i <= a@.len(),
            r@ == a@.subrange(0, i as int),
        decreases a@.len() - i,
    {
        r.push(a[i]);
        i = i + 1;
        assert(r@ =~= a@.subrange(0, i as int));
    }
    assert(r@ =~= a@);
    r
}

/// A list of header fields. A name may occur more than once; reading a name
/// gives its first value.
#[derive(Clone, Debug)]
pub struct Headers {
    entries: Vec<(Vec<u8>, Vec<u8>)>,
}

pub open spec fn entry_view(e: (Vec<u8>, Vec<u8>)) -> (Seq<u8>, Seq<u8>) {
    (e.0@, e.1@)
}

pub open spec fn entries_view(v: Seq<(Vec<u8>, Vec<u8>)>) -> HeaderSeq {
    v.map_values(|e: (Vec<u8>, Vec<u8>)| entry_view(e))
}

impl View for Headers {
    type V = HeaderSeq;

    closed spec fn view(&self) -> HeaderSeq {
        entries_view(self.entries@)
    }
}

impl Headers {
    /// An empty header list.
    pub fn new() -> (r: Headers)
        ensures
            r@ == Seq::<(Seq<u8>, Seq<u8>)>::empty(),
    {
        let r = Headers { entries: Vec::new() };
        assert(r@ =~= Seq::<(Seq<u8>, Seq<u8>)>::empty());
        r
    }

    /// The number of fields.
    pub fn len(&self) -> (r: usize)
        ensures
            r == self@.len(),
    {
        self.entries.len()
    }

    /// The field at `i`, as a pair of name and value.
    pub fn entry(&self, i: usize) -> (r: (&Vec<u8>, &Vec<u8>))
        requires
            i < self@.len(),
        ensures
            r.0@ == self@[i as int].0,
            r.1@ == self@[i as int].1,
    {
        let e = &self.entries[i];
        (&e.0, &e.1)
    }

    /// Adds a field at the end, keeping those already present.
    pub fn append(&mut self, name: Vec<u8>, value: Vec<u8>)
        ensures
            final(self)@ == old(self)@.push((name@, value@)),
    {
        let ghost e = (name, value);
        self.entries.push((name, value));
        assert(self@ =~= old(self)@.push(entry_view(e)));
    }

    /// The first value stored under `name`.
    pub fn get(&self, name: &[u8]) -> (r: Option<&Vec<u8>>)
        ensures
            match r {
                Some(v) => lookup(self@, name@) == Some(v@),
                None => lookup(self@, name@) is None,
            },
    {
        let mut i: usize = 0;
        assert(self@.subrange(0, self@.len() as int) =~= self@);
        while i < self.entries.len()
            invariant
                0 <= i <= self@.len(),
                self@.len() == self.entries@.len(),
                lookup(self@, name@) == lookup(self@.subrange(i as int, self@.len() as int), name@),
            decreases self@.len() - i,
        {
            let ghost rest = self@.subrange(i as int, self@.len() as int);
            assert(rest.drop_first() =~= self@.subrange(i + 1, self@.len() as int));
            assert(self@[i as int] == entry_view(self.entries@[i as int]));
            if bytes_eq(self.entries[i].0.as_slice(), name) {
                return Some(&self.entries[i].1);
            }
            i = i + 1;
        }
        None
    }

    /// Removes every field named `name`.
    pub fn remove(&mut self, name: &[u8])
        ensures
            lookup(final(self)@, name@) is None,
            forall|m: Seq<u8>| m != name@ ==> #[trigger] lookup(final(self)@, m) == lookup(old(self)@, m),
    {
        let mut kept: Vec<(Vec<u8>, Vec<u8>)> = Vec::new();
        let ghost old_view = self@;
        let mut i: usize = 0;
        while i < self.entries.len()
            invariant
                0 <= i <= old_view.len(),
                old_view == self@,
                old_view.len() == self.entries@.len(),
                lookup(entries_view(kept@), name@) is None,
                forall|m: Seq<u8>| m != name@ ==> #[trigger] lookup(entries_view(kept@), m)
                    == lookup(old_view.subrange(0, i as int), m),
            decreases old_view.len() - i,
        {
            let ghost kv = entries_view(kept@);
            let ghost pre = old_view.subrange(0, i as int);
            assert(old_view.subrange(0, i + 1) =~= pre.push(old_view[i as int]));
            assert(old_view[i as int] == entry_view(self.entries@[i as int]));
            if !bytes_eq(self.entries[i].0.as_slice(), name) {
                let n = copy_bytes(self.entries[i].0.as_slice());
                let v = copy_bytes(self.entries[i].1.as_slice());
                let ghost e = (n, v);
                kept.push((n, v));
                assert(entries_view(kept@) =~= kv.push(entry_view(e)));
                assert forall|m: Seq<u8>| m != name@ implies #[trigger] lookup(entries_view(kept@), m)
                    == lookup(old_view.subrange(0, i + 1), m) by {
                    lemma_lookup_push(kv, entry_view(e), m);
                    lemma_lookup_push(pre, old_view[i as int], m);
                }
                proof {
                    lemma_lookup_push(kv, entry_view(e), name@);
                }
            } else {
                assert forall|m: Seq<u8>| m != name@ implies #[trigger] lookup(kv, m)
                    == lookup(old_view.subrange(0, i + 1), m) by {
                    lemma_lookup_push(pre, old_view[i as int], m);
                }
            }
            i = i + 1;
        }
        assert(old_view.subrange(0, old_view.len() as int) =~= old_view);
        self.entries = kept;
    }

    /// Sets `name` to `value`, dropping any values it had.
    pub fn insert(&mut self, name: Vec<u8>, value: Vec<u8>)
        ensures
            lookup(final(self)@, name@) == Some(value@),
            forall|m: Seq<u8>| m != name@ ==> #[trigger] lookup(final(self)@, m) == lookup(old(self)@, m),
    {
        self.remove(name.as_slice());
        let ghost mid = self@;
        let ghost nv = (name@, value@);
        self.append(name, value);
        proof {
            lemma_lookup_push(mid, nv, nv.0);
            assert forall|m: Seq<u8>| m != nv.0 implies #[trigger] lookup(self@, m) == lookup(old(self)@, m) by {
                lemma_lookup_push(mid, nv, m);
            }
        }
    }
}

/// A byte allowed in a header name (an HTTP token character).
pub open spec fn is_token_byte(b: u8) -> bool {
    ||| 48 <= b <= 57
    ||| 65 <= b <= 90
    ||| 97 <= b <= 122
    ||| b == 33 || b == 35 || b == 36 || b == 37 || b == 38 || b == 39
    ||| b == 42 || b == 43 || b == 45 || b == 46
    ||| b == 94 || b == 95 || b == 96 || b == 124 || b == 126
}

/// A name that http accepts as a header name.
pub open spec fn valid_header_name(s: Seq<u8>) -> bool {
    &&& 0 < s.len() <= 65535
    &&& forall|i: int| 0 <= i < s.len() ==> is_token_byte(#[trigger] s[i])
}

pub open spec fn ascii_lower(b: u8) -> u8 {
    if 65 <= b <= 90 {
        (b + 32) as u8
    } else {
        b
    }
}

/// A header name as http stores it: in lower case.
pub open spec fn normalized_name(s: Seq<u8>) -> Seq<u8> {
    s.map_values(|b: u8| ascii_lower(b))
}

/// A byte allowed in a header value.
pub open spec fn is_value_byte(b: u8) -> bool {
    (b >= 32 && b != 127) || b == 9
}

/// A value that http accepts as a header value.
pub open spec fn valid_header_value(s: Seq<u8>) -> bool {
    forall|i: int| 0 <= i < s.len() ==> is_value_byte(#[trigger] s[i])
}

/// Relies on `http::HeaderName::from_bytes`: it accepts non-empty names of
/// token characters up to 65535 bytes and stores them in lower case.
#[verifier::external_body]
pub(crate) fn parse_header_name(b: &[u8]) -> (r: Option<Vec<u8>>)
    ensures
        r is Some <==> valid_header_name(b@),
        r matches Some(v) ==> v@ == normalized_name(b@),
{
    http::HeaderName::from_bytes(b).ok().map(|n| n.as_str().as_bytes().to_vec())
}

/// Relies on `http::HeaderValue::from_bytes`: it accepts exactly the values
/// whose bytes are all visible ASCII, spaces, tabs or obs-text, and keeps them.
#[verifier::external_body]
pub(crate) fn parse_header_value(b: &[u8]) -> (r: Option<Vec<u8>>)
    ensures
        r is Some <==> valid_header_value(b@),
        r matches Some(v) ==> v@ == b@,
{
    http::HeaderValue::from_bytes(b).ok().map(|v| v.as_bytes().to_vec())
}

/// Relies on `http::Method::from_bytes` and `Method::as_str`: a method that
/// parses reads back as the same bytes, and `POST` and `OPTIONS` parse.
#[verifier::external_body]
pub(crate) fn parse_method(b: &[u8]) -> (r: Option<Vec<u8>>)
    ensures
        r matches Some(v) ==> v@ == b@,
        b@ == "POST".spec_bytes() || b@ == "OPTIONS".spec_bytes() ==> r is Some,
{
    http::Method::from_bytes(b).ok().map(|m| m.as_str().as_bytes().to_vec())
}

} // verus!
