//! The streaming frame codec: gRPC-Web request bodies to gRPC, gRPC response
//! bodies (and their trailers) to gRPC-Web.
//!
//! A `WebCall` holds the state of one body. The embedding server pulls items
//! from the inner body and hands each to the call, which says what to do next.

use crate::b64::{
    b64_decode_bytes, b64_encode, b64_encode_bytes, groups, lemma_encode_len, lemma_encode_slice,
};
use crate::headers::{bytes_eq, copy_bytes, lookup, HeaderSeq, Headers};
use crate::{GRPC_WEB_PROTO, GRPC_WEB_TEXT, GRPC_WEB_TEXT_PROTO};
use vstd::prelude::*;
use vstd::string::StringSliceAdditionalSpecFns;

verus! {

const BUFFER_SIZE: usize = 8192;

const GRPC_WEB_TRAILERS_BIT: u8 = 0x80;

/// How a body is carried: as raw bytes, or as base64 text.
#[derive(Clone, Copy, Debug, PartialEq, Eq, Structural)]
pub enum Encoding {
    Base64,
    Identity,
}

/// Whether a call decodes a request body or encodes a response body.
#[derive(Clone, Copy, Debug, PartialEq, Eq, Structural)]
pub enum Direction {
    Request,
    Response,
}

/// Why a body could not be transcoded.
#[derive(Debug)]
pub enum WebError {
    /// The inner body failed; the message describes how.
    Transport(String),
    /// A block of base64 text could not be decoded.
    Decode(base64::DecodeError),
    /// The base64 text ended in the middle of a group.
    Malformed,
}

/// What the inner body produced when it was polled for data.
#[derive(Debug)]
pub enum Pulled {
    Data(Vec<u8>),
    Failed(String),
    End,
}

/// What the driver does next.
#[derive(Debug)]
pub enum Next {
    /// Hand this chunk on.
    Item(Vec<u8>),
    /// End the body with this error.
    Fail(WebError),
    /// Poll the inner body for more data and pass the result back.
    Pull,
    /// Poll the inner body's trailers and pass them to `encode_trailers`.
    Trailers,
    /// The body is over.
    Finished,
}

/// The encoding that a Content-Type or Accept value selects.
pub open spec fn header_encoding(value: Option<Seq<u8>>) -> Encoding {
    match value {
        Some(v) => if v == GRPC_WEB_TEXT_PROTO.spec_bytes() || v == GRPC_WEB_TEXT.spec_bytes() {
            Encoding::Base64
        } else {
            Encoding::Identity
        },
        None => Encoding::Identity,
    }
}

/// The content type that answers a request for the given encoding.
pub open spec fn content_type_of(e: Encoding) -> &'static str {
    match e {
        Encoding::Base64 => GRPC_WEB_TEXT_PROTO,
        Encoding::Identity => GRPC_WEB_PROTO,
    }
}

impl Encoding {
    /// The encoding named by the request's Content-Type.
    pub fn from_content_type(headers: &Headers) -> (r: Encoding)
        ensures
            r == header_encoding(lookup(headers@, crate::CONTENT_TYPE.spec_bytes())),
    {
        Self::from_header(headers.get(crate::CONTENT_TYPE.as_bytes_vec().as_slice()))
    }

    /// The encoding asked for by the request's Accept.
    pub fn from_accept(headers: &Headers) -> (r: Encoding)
        ensures
            r == header_encoding(lookup(headers@, crate::ACCEPT.spec_bytes())),
    {
        Self::from_header(headers.get(crate::ACCEPT.as_bytes_vec().as_slice()))
    }

    /// The gRPC-Web content type of a response in this encoding.
    pub fn to_content_type(self) -> (r: &'static str)
        ensures
            r == content_type_of(self),
    {
        match self {
            Encoding::Base64 => GRPC_WEB_TEXT_PROTO,
            Encoding::Identity => GRPC_WEB_PROTO,
        }
    }

    /// The encoding that a header value selects: base64 for the text types.
    pub fn from_header(value: Option<&Vec<u8>>) -> (r: Encoding)
        ensures
            r == header_encoding(match value {
                Some(v) => Some(v@),
                None => None,
            }),
    {
        match value {
            Some(v) => {
                if bytes_eq(v.as_slice(), GRPC_WEB_TEXT_PROTO.as_bytes_vec().as_slice())
                    || bytes_eq(v.as_slice(), GRPC_WEB_TEXT.as_bytes_vec().as_slice()) {
                    Encoding::Base64
                } else {
                    Encoding::Identity
                }
            },
            None => Encoding::Identity,
        }
    }
}

/// The bytes of all chunks, in order.
pub open spec fn concat(chunks: Seq<Vec<u8>>) -> Seq<u8>
    decreases chunks.len(),
{
    if chunks.len() == 0 {
        Seq::empty()
    } else {
        chunks[0]@ + concat(chunks.drop_first())
    }
}

/// The big-endian bytes of a 32-bit length.
pub open spec fn be32(n: nat) -> Seq<u8> {
    seq![
        (n / 0x1000000 % 0x100) as u8,
        (n / 0x10000 % 0x100) as u8,
        (n / 0x100 % 0x100) as u8,
        (n % 0x100) as u8,
    ]
}

/// The trailer lines `name:value\r\n`, in the order of the list.
pub open spec fn trailer_payload(t: HeaderSeq) -> Seq<u8>
    decreases t.len(),
{
    if t.len() == 0 {
        Seq::empty()
    } else {
        trailer_payload(t.drop_last()) + t.last().0 + seq![58u8] + t.last().1 + seq![13u8, 10u8]
    }
}

/// A trailers frame: the trailers flag, the payload's length, the payload.
pub open spec fn trailer_frame(t: HeaderSeq) -> Seq<u8> {
    seq![0x80u8] + be32(trailer_payload(t).len()) + trailer_payload(t)
}

/// The result of decoding one block of base64 text `s` into `r`.
pub open spec fn decoded_block(r: Next, s: Seq<u8>) -> bool {
    &&& (r is Item || r matches Next::Fail(WebError::Decode(_)))
    &&& r matches Next::Item(v) ==> b64_encode(v@) == s
    &&& r is Fail ==> forall|x: Seq<u8>| #[trigger] b64_encode(x) != s
    &&& forall|x: Seq<u8>| #[trigger] b64_encode(x) == s ==> (r matches Next::Item(v) && v@ == x)
}

/// One decoding step of a request call, from `before` to `after`: with
/// base64 the pulled bytes join the buffer and its whole groups are decoded;
/// with no encoding data passes through; at the end a non-empty buffer is
/// malformed text.
pub open spec fn decode_step(before: WebCall, after: WebCall, pulled: Pulled, r: Next) -> bool {
    &&& after.direction() == before.direction()
    &&& after.encoding() == before.encoding()
    &&& after.trailers_pending() == before.trailers_pending()
    &&& match pulled {
        Pulled::Data(d) => if before.encoding() == Encoding::Identity {
            r == Next::Item(d) && after.buffered() == before.buffered()
        } else {
            let b = before.buffered() + d@;
            let k = (b.len() / 4) * 4;
            &&& after.buffered() == b.subrange(k as int, b.len() as int)
            &&& k == 0 ==> r is Pull
            &&& k > 0 ==> decoded_block(r, b.subrange(0, k as int))
        },
        Pulled::Failed(m) => r == Next::Fail(WebError::Transport(m)) && after.buffered()
            == before.buffered(),
        Pulled::End => after.buffered() == before.buffered() && if before.buffered().len() == 0 {
            r is Finished
        } else {
            r matches Next::Fail(WebError::Malformed)
        },
    }
}

/// One encoding step of a response call: data is passed on, as base64 text
/// where that was asked for; at the end the trailers are asked for, once.
pub open spec fn encode_step(before: WebCall, after: WebCall, pulled: Pulled, r: Next) -> bool {
    &&& after == before
    &&& match pulled {
        Pulled::Data(d) => r matches Next::Item(v) && v@ == (if before.encoding() == Encoding::Base64 {
            b64_encode(d@)
        } else {
            d@
        }),
        Pulled::Failed(m) => r == Next::Fail(WebError::Transport(m)),
        Pulled::End => if before.trailers_pending() {
            r is Trailers
        } else {
            r is Finished
        },
    }
}

/// The state of one body being transcoded.
#[derive(Debug)]
pub struct WebCall {
    buf: Vec<u8>,
    direction: Direction,
    encoding: Encoding,
    poll_trailers: bool,
}

impl WebCall {
    /// The base64 text received and not yet decoded.
    pub closed spec fn buffered(&self) -> Seq<u8> {
        self.buf@
    }

    pub closed spec fn direction(&self) -> Direction {
        self.direction
    }

    pub closed spec fn encoding(&self) -> Encoding {
        self.encoding
    }

    /// Whether the trailers frame is still to be produced.
    pub closed spec fn trailers_pending(&self) -> bool {
        self.poll_trailers
    }

    /// At rest, a call holds less than one base64 group, and only when it
    /// decodes base64.
    pub closed spec fn wf(&self) -> bool {
        &&& self.buf@.len() < 4
        &&& (self.direction == Direction::Response || self.encoding == Encoding::Identity)
            ==> self.buf@.len() == 0
    }

    /// Whether the call decodes a request body.
    pub fn is_request(&self) -> (r: bool)
        ensures
            r == (self.direction() == Direction::Request),
    {
        self.direction == Direction::Request
    }

    /// A call that decodes a request body.
    pub fn request(encoding: Encoding) -> (r: WebCall)
        ensures
            r.wf(),
            r.direction() == Direction::Request,
            r.encoding() == encoding,
            r.buffered() == Seq::<u8>::empty(),
            r.trailers_pending(),
    {
        Self::new(Direction::Request, encoding)
    }

    /// A call that encodes a response body.
    pub fn response(encoding: Encoding) -> (r: WebCall)
        ensures
            r.wf(),
            r.direction() == Direction::Response,
            r.encoding() == encoding,
            r.buffered() == Seq::<u8>::empty(),
            r.trailers_pending(),
    {
        Self::new(Direction::Response, encoding)
    }

    fn new(direction: Direction, encoding: Encoding) -> (r: WebCall)
        ensures
            r.wf(),
            r.direction() == direction,
            r.encoding() == encoding,
            r.buffered() == Seq::<u8>::empty(),
            r.trailers_pending(),
    {
        let capacity: usize = match (direction, encoding) {
            (Direction::Response, Encoding::Base64) => BUFFER_SIZE,
            _ => 0,
        };
        WebCall { buf: Vec::with_capacity(capacity), direction, encoding, poll_trailers: true }
    }

    /// The length of the longest prefix of whole groups in the buffer.
    fn max_decodable(&self) -> (r: usize)
        ensures
            r == (self.buf@.len() / 4) * 4,
    {
        (self.buf.len() / 4) * 4
    }

    /// Decodes the whole groups at the front of the buffer, if there are any.
    fn decode_chunk(&mut self) -> (r: Result<Option<Vec<u8>>, WebError>)
        ensures
            final(self).direction == old(self).direction,
            final(self).encoding == old(self).encoding,
            final(self).poll_trailers == old(self).poll_trailers,
            ({
                let b = old(self).buf@;
                let k = (b.len() / 4) * 4;
                if b.len() < 4 {
                    r matches Ok(None) && final(self).buf@ == b
                } else {
                    &&& final(self).buf@ == b.subrange(k as int, b.len() as int)
                    &&& (r matches Ok(Some(_)) || r matches Err(WebError::Decode(_)))
                    &&& r matches Ok(Some(v)) ==> b64_encode(v@) == b.subrange(0, k as int)
                    &&& r is Err ==> forall|x: Seq<u8>| #[trigger] b64_encode(x) != b.subrange(0, k as int)
                    &&& forall|x: Seq<u8>| #[trigger] b64_encode(x) == b.subrange(0, k as int)
                        ==> (r matches Ok(Some(v)) && v@ == x)
                }
            }),
    {
        if self.buf.len() < 4 {
            return Ok(None);
        }
        let index = self.max_decodable();
        let rest = self.buf.split_off(index);
        let decoded = b64_decode_bytes(self.buf.as_slice());
        self.buf = rest;
        match decoded {
            Ok(decoded) => Ok(Some(decoded)),
            Err(e) => Err(WebError::Decode(e)),
        }
    }

    /// Takes what the inner request body produced. With base64, the bytes join
    /// the buffer and the whole groups at its front are decoded; with no
    /// encoding, data passes through.
    pub fn poll_decode(&mut self, pulled: Pulled) -> (r: Next)
        requires
            old(self).wf(),
            old(self).direction() == Direction::Request,
        ensures
            final(self).wf(),
            decode_step(*old(self), *final(self), pulled, r),
    {
        let r = match pulled {
            Pulled::Data(d) => {
                if self.encoding == Encoding::Identity {
                    Next::Item(d)
                } else {
                    let ghost old_buf = self.buf@;
                    let mut d = d;
                    let ghost dv = d@;
                    self.buf.append(&mut d);
                    assert(self.buf@ == old_buf + dv);
                    proof {
                        let b = old_buf + dv;
                        assert(b.subrange(0, b.len() as int) =~= b);
                    }
                    match self.decode_chunk() {
                        Ok(Some(bytes)) => Next::Item(bytes),
                        Ok(None) => Next::Pull,
                        Err(e) => Next::Fail(e),
                    }
                }
            },
            Pulled::Failed(m) => Next::Fail(WebError::Transport(m)),
            Pulled::End => {
                if self.buf.len() > 0 {
                    Next::Fail(WebError::Malformed)
                } else {
                    Next::Finished
                }
            },
        };
        r
    }

    /// Takes what the inner response body produced: data is passed on, as
    /// base64 text where that was asked for; at its end the trailers follow.
    pub fn poll_encode(&mut self, pulled: Pulled) -> (r: Next)
        requires
            old(self).direction() == Direction::Response,
        ensures
            encode_step(*old(self), *final(self), pulled, r),
    {
        match pulled {
            Pulled::Data(d) => {
                if self.encoding == Encoding::Base64 {
                    Next::Item(b64_encode_bytes(d.as_slice()))
                } else {
                    Next::Item(d)
                }
            },
            Pulled::Failed(m) => Next::Fail(WebError::Transport(m)),
            Pulled::End => {
                if self.poll_trailers {
                    Next::Trailers
                } else {
                    Next::Finished
                }
            },
        }
    }

    /// Takes what the inner response body gave when its trailers were polled:
    /// trailers become the closing frame, produced once.
    pub fn encode_trailers(&mut self, polled: Result<Option<Headers>, String>) -> (r: Next)
        requires
            polled matches Ok(Some(t)) ==> trailer_payload(t@).len() <= u32::MAX,
        ensures
            old(self).wf() ==> final(self).wf(),
            final(self).direction() == old(self).direction(),
            final(self).encoding() == old(self).encoding(),
            final(self).buffered() == old(self).buffered(),
            !old(self).trailers_pending() ==> r is Finished && *final(self) == *old(self),
            old(self).trailers_pending() ==> match polled {
                Ok(Some(t)) => {
                    &&& !final(self).trailers_pending()
                    &&& r matches Next::Item(v) && v@ == (if old(self).encoding()
                        == Encoding::Base64 {
                        b64_encode(trailer_frame(t@))
                    } else {
                        trailer_frame(t@)
                    })
                },
                Ok(None) => r is Finished && *final(self) == *old(self),
                Err(m) => r == Next::Fail(WebError::Transport(m)) && *final(self) == *old(self),
            },
    {
        if !self.poll_trailers {
            return Next::Finished;
        }
        match polled {
            Ok(Some(map)) => {
                let mut frame = make_trailers_frame(&map);
                if self.encoding == Encoding::Base64 {
                    frame = b64_encode_bytes(frame.as_slice());
                }
                self.poll_trailers = false;
                Next::Item(frame)
            },
            Ok(None) => Next::Finished,
            Err(m) => Next::Fail(WebError::Transport(m)),
        }
    }

    /// Takes what the inner body produced, decoding or encoding by direction.
    pub fn poll_data(&mut self, pulled: Pulled) -> (r: Next)
        requires
            old(self).wf(),
        ensures
            final(self).wf(),
            old(self).direction() == Direction::Request ==> decode_step(*old(self), *final(self), pulled, r),
            old(self).direction() == Direction::Response ==> encode_step(*old(self), *final(self), pulled, r),
    {
        match self.direction {
            Direction::Request => self.poll_decode(pulled),
            Direction::Response => self.poll_encode(pulled),
        }
    }
}

/// Builds the trailers frame: the flag byte `0x80`, the payload length as a
/// big-endian `u32`, then `name:value\r\n` for each trailer in order.
pub fn make_trailers_frame(trailers: &Headers) -> (r: Vec<u8>)
    requires
        trailer_payload(trailers@).len() <= u32::MAX,
    ensures
        r@ == trailer_frame(trailers@),
{
    let mut payload: Vec<u8> = Vec::new();
    let n = trailers.len();
    let mut i: usize = 0;
    while i < n
        invariant
            n == trailers@.len(),
            0 <= i <= n,
            payload@ == trailer_payload(trailers@.subrange(0, i as int)),
        decreases n - i,
    {
        let (name, value) = trailers.entry(i);
        let ghost before = payload@;
        payload.extend_from_slice(name.as_slice());
        payload.push(58u8);
        payload.extend_from_slice(value.as_slice());
        payload.push(13u8);
        payload.push(10u8);
        proof {
            let t = trailers@.subrange(0, i + 1);
            assert(t.drop_last() =~= trailers@.subrange(0, i as int));
            assert(t.last() == trailers@[i as int]);
            assert(payload@ =~= before + name@ + seq![58u8] + value@ + seq![13u8, 10u8]);
        }
        i = i + 1;
    }
    assert(trailers@.subrange(0, n as int) =~= trailers@);
    let len = payload.len();
    let mut frame: Vec<u8> = Vec::with_capacity(5);
    frame.push(GRPC_WEB_TRAILERS_BIT);
    frame.push((len / 0x1000000 % 0x100) as u8);
    frame.push((len / 0x10000 % 0x100) as u8);
    frame.push((len / 0x100 % 0x100) as u8);
    frame.push((len % 0x100) as u8);
    let ghost head = frame@;
    frame.append(&mut payload);
    assert(frame@ =~= trailer_frame(trailers@));
    frame
}

/// How many bytes the first `c` characters of an encoding of `n` bytes carry.
pub open spec fn decoded_len(c: int, n: int) -> int {
    if 3 * (c / 4) <= n {
        3 * (c / 4)
    } else {
        n
    }
}

proof fn lemma_group_bounds(n: int, c: int, e: int)
    requires
        0 <= n,
        0 <= c < e <= 4 * groups(n),
        c % 4 == 0,
        e % 4 == 0,
    ensures
        3 * (c / 4) < n,
        c / 4 < e / 4 <= groups(n),
        decoded_len(c, n) == 3 * (c / 4),
{
}

proof fn lemma_concat_step(chunks: Seq<Vec<u8>>, i: int)
    requires
        0 <= i < chunks.len(),
    ensures
        concat(chunks.subrange(i, chunks.len() as int)) == chunks[i]@ + concat(
            chunks.subrange(i + 1, chunks.len() as int),
        ),
{
    let s = chunks.subrange(i, chunks.len() as int);
    assert(s.drop_first() =~= chunks.subrange(i + 1, chunks.len() as int));
}

/// Decodes a whole request body that arrives as `chunks`, in order, by
/// driving a request call over them. With base64 the result does not depend
/// on where the chunks were cut: the encoding of any bytes `d` decodes to `d`.
pub fn decode_body(chunks: &Vec<Vec<u8>>, encoding: Encoding) -> (r: Result<Vec<u8>, WebError>)
    ensures
        encoding == Encoding::Identity ==> (r matches Ok(v) && v@ == concat(chunks@)),
        encoding == Encoding::Base64 ==> forall|d: Seq<u8>|
            #[trigger] b64_encode(d) == concat(chunks@) ==> (r matches Ok(v) && v@ == d),
        encoding == Encoding::Base64 && concat(chunks@).len() % 4 != 0 ==> r is Err,
{
    let mut call = WebCall::request(encoding);
    let mut out: Vec<u8> = Vec::new();
    let ghost total = concat(chunks@);
    let ghost mut seen: Seq<u8> = Seq::empty();
    let ghost mut consumed: int = 0;
    let n = chunks.len();
    let mut i: usize = 0;
    assert(chunks@.subrange(0, n as int) =~= chunks@);
    assert(seen + total =~= total);
    while i < n
        invariant
            n == chunks@.len(),
            0 <= i <= n,
            call.wf(),
            call.direction() == Direction::Request,
            call.encoding() == encoding,
            total == concat(chunks@),
            total == seen + concat(chunks@.subrange(i as int, n as int)),
            encoding == Encoding::Identity ==> out@ == seen,
            encoding == Encoding::Base64 ==> {
                &&& 0 <= consumed
                &&& consumed % 4 == 0
                &&& consumed + call.buffered().len() == seen.len()
                &&& seen.subrange(consumed, seen.len() as int) == call.buffered()
                &&& forall|d: Seq<u8>| #[trigger] b64_encode(d) == total
                    ==> out@ == d.subrange(0, decoded_len(consumed, d.len() as int))
            },
        decreases n - i,
    {
        let chunk = copy_bytes(chunks[i].as_slice());
        proof {
            lemma_concat_step(chunks@, i as int);
        }
        let ghost old_buf = call.buffered();
        let ghost old_out = out@;
        let ghost seen2 = seen + chunk@;
        assert(total == seen2 + concat(chunks@.subrange(i + 1, n as int)));
        let step = call.poll_decode(Pulled::Data(chunk));
        let ghost b = old_buf + chunk@;
        let ghost k: int = ((b.len() / 4) * 4) as int;
        proof {
            if encoding == Encoding::Base64 {
                assert(b =~= seen2.subrange(consumed, seen2.len() as int));
                assert(b.subrange(0, k) =~= total.subrange(consumed, consumed + k));
            }
        }
        match step {
            Next::Item(mut v) => {
                proof {
                    if encoding == Encoding::Base64 {
                        assert forall|d: Seq<u8>| #[trigger] b64_encode(d) == total implies old_out
                            + v@ == d.subrange(0, decoded_len(consumed + k, d.len() as int)) by {
                            lemma_encode_len(d);
                            lemma_group_bounds(d.len() as int, consumed, consumed + k);
                            lemma_encode_slice(d, consumed / 4, (consumed + k) / 4);
                            assert(4 * (consumed / 4) == consumed);
                            assert(4 * ((consumed + k) / 4) == consumed + k);
                            assert(old_out + v@ =~= d.subrange(
                                0,
                                decoded_len(consumed + k, d.len() as int),
                            ));
                        }
                    }
                }
                out.append(&mut v);
                proof {
                    if encoding == Encoding::Base64 {
                        assert(seen2.subrange(consumed + k, seen2.len() as int) =~= call.buffered());
                        consumed = consumed + k;
                    }
                }
            },
            Next::Pull => {
                assert(seen2.subrange(consumed, seen2.len() as int) =~= call.buffered());
            },
            Next::Fail(e) => {
                proof {
                    assert forall|d: Seq<u8>| #[trigger] b64_encode(d) == total implies false by {
                        lemma_encode_len(d);
                        lemma_group_bounds(d.len() as int, consumed, consumed + k);
                        lemma_encode_slice(d, consumed / 4, (consumed + k) / 4);
                        assert(4 * (consumed / 4) == consumed);
                        assert(4 * ((consumed + k) / 4) == consumed + k);
                        let x = d.subrange(3 * (consumed / 4), decoded_len(consumed + k, d.len() as int));
                        assert(b64_encode(x) == b.subrange(0, k));
                    }
                }
                return Err(e);
            },
            _ => {
                assert(false);
                return Err(WebError::Malformed);
            },
        }
        proof {
            seen = seen2;
        }
        i = i + 1;
    }
    assert(chunks@.subrange(n as int, n as int) =~= Seq::<Vec<u8>>::empty());
    assert(seen =~= total);
    match call.poll_decode(Pulled::End) {
        Next::Finished => {
            proof {
                if encoding == Encoding::Base64 {
                    assert forall|d: Seq<u8>| #[trigger] b64_encode(d) == total implies out@
                        == d by {
                        lemma_encode_len(d);
                        assert(d.subrange(0, d.len() as int) =~= d);
                    }
                }
            }
            Ok(out)
        },
        Next::Fail(e) => {
            proof {
                if encoding == Encoding::Base64 {
                    assert forall|d: Seq<u8>| #[trigger] b64_encode(d) == total implies false by {
                        lemma_encode_len(d);
                    }
                }
            }
            Err(e)
        },
        _ => {
            assert(false);
            Err(WebError::Malformed)
        },
    }
}

} // verus!
