use base64::Engine;
use grpc_web::config::{is_method_allowed, join_header_value};
use grpc_web::service::{coerce_request_headers, coerce_response_headers};
use grpc_web::{
    decode_body, make_trailers_frame, Config, Cors, CorsError, Encoding, Headers, HttpVersion,
    Next, Pulled, RequestKind, Route, WebCall, WebError, WebLayer, WebService,
};

fn b64(bytes: &[u8]) -> Vec<u8> {
    base64::engine::general_purpose::STANDARD.encode(bytes).into_bytes()
}

fn unb64(text: &[u8]) -> Vec<u8> {
    base64::engine::general_purpose::STANDARD.decode(text).unwrap()
}

fn headers(pairs: &[(&str, &str)]) -> Headers {
    let mut h = Headers::new();
    for (n, v) in pairs {
        h.append(n.as_bytes().to_vec(), v.as_bytes().to_vec());
    }
    h
}

fn value<'a>(h: &'a Headers, name: &str) -> Option<&'a [u8]> {
    h.get(name.as_bytes()).map(|v| v.as_slice())
}

fn foo_only() -> Cors {
    Cors::new(Config::new().allow_origins(vec![b"http://foo.com".to_vec()]))
}

fn item(n: Next) -> Vec<u8> {
    match n {
        Next::Item(v) => v,
        _ => panic!("expected an item"),
    }
}

#[test]
fn decode_reassembles_any_chunking() {
    let payload: Vec<u8> = (0u8..=200).collect();
    let text = b64(&payload);
    for size in [1usize, 2, 3, 4, 5, 7, 11, 64, text.len()] {
        let chunks: Vec<Vec<u8>> = text.chunks(size).map(|c| c.to_vec()).collect();
        match decode_body(&chunks, Encoding::Base64) {
            Ok(out) => assert_eq!(out, payload, "chunk size {}", size),
            Err(_) => panic!("chunk size {} failed", size),
        }
    }
}

#[test]
fn decode_uneven_chunks() {
    let payload = b"hello grpc-web!".to_vec();
    let text = b64(&payload);
    let chunks = vec![text[..1].to_vec(), text[1..6].to_vec(), text[6..7].to_vec(), text[7..].to_vec()];
    assert_eq!(decode_body(&chunks, Encoding::Base64).ok(), Some(payload));
}

#[test]
fn decode_identity_concatenates() {
    let chunks = vec![b"ab".to_vec(), b"c".to_vec()];
    assert_eq!(decode_body(&chunks, Encoding::Identity).ok(), Some(b"abc".to_vec()));
}

#[test]
fn decode_misaligned_body_fails() {
    let chunks = vec![b"QUJDRA".to_vec()];
    assert!(matches!(decode_body(&chunks, Encoding::Base64), Err(WebError::Malformed)));
}

#[test]
fn end_with_no_residue_finishes() {
    let mut call = WebCall::request(Encoding::Base64);
    assert_eq!(item(call.poll_decode(Pulled::Data(b"QUJD".to_vec()))), b"ABC".to_vec());
    assert!(matches!(call.poll_decode(Pulled::End), Next::Finished));
}

#[test]
fn end_with_residue_is_malformed() {
    for residue in [&b"Q"[..], b"QU", b"QUJ"] {
        let mut call = WebCall::request(Encoding::Base64);
        let mut data = b"QUJD".to_vec();
        data.extend_from_slice(residue);
        assert_eq!(item(call.poll_decode(Pulled::Data(data))), b"ABC".to_vec());
        assert!(matches!(call.poll_decode(Pulled::End), Next::Fail(WebError::Malformed)));
    }
}

#[test]
fn short_chunk_asks_for_more() {
    let mut call = WebCall::request(Encoding::Base64);
    assert!(matches!(call.poll_decode(Pulled::Data(b"QU".to_vec())), Next::Pull));
    assert_eq!(item(call.poll_decode(Pulled::Data(b"JD".to_vec()))), b"ABC".to_vec());
}

#[test]
fn invalid_base64_is_a_decode_error() {
    let mut call = WebCall::request(Encoding::Base64);
    assert!(matches!(call.poll_decode(Pulled::Data(b"QQ=A".to_vec())), Next::Fail(WebError::Decode(_))));
}

#[test]
fn transport_error_is_passed_on() {
    let mut call = WebCall::request(Encoding::Identity);
    match call.poll_decode(Pulled::Failed("reset".to_string())) {
        Next::Fail(WebError::Transport(m)) => assert_eq!(m, "reset"),
        _ => panic!("expected a transport error"),
    }
}

#[test]
fn identity_request_passes_data() {
    let mut call = WebCall::request(Encoding::Identity);
    assert_eq!(item(call.poll_decode(Pulled::Data(b"xyz".to_vec()))), b"xyz".to_vec());
    assert!(matches!(call.poll_data(Pulled::End), Next::Finished));
}

#[test]
fn trailers_frame_bytes() {
    let frame = make_trailers_frame(&headers(&[("grpc-status", "0")]));
    assert_eq!(frame.len(), 5 + 15);
    assert_eq!(frame[..5].to_vec(), vec![0x80u8, 0, 0, 0, 15]);
    assert_eq!(frame[5..].to_vec(), b"grpc-status:0\r\n".to_vec());
}

#[test]
fn trailers_frame_keeps_order() {
    let frame = make_trailers_frame(&headers(&[("grpc-status", "0"), ("grpc-message", "ok")]));
    let payload = b"grpc-status:0\r\ngrpc-message:ok\r\n";
    let mut expected = vec![0x80u8, 0, 0, 0, payload.len() as u8];
    expected.extend_from_slice(payload);
    assert_eq!(frame, expected);
}

#[test]
fn empty_trailers_frame() {
    assert_eq!(make_trailers_frame(&Headers::new()), vec![0x80u8, 0, 0, 0, 0]);
}

#[test]
fn response_encodes_data_and_trailers_once() {
    let mut call = WebCall::response(Encoding::Base64);
    assert_eq!(item(call.poll_encode(Pulled::Data(b"abc".to_vec()))), b"YWJj".to_vec());
    assert!(matches!(call.poll_encode(Pulled::End), Next::Trailers));
    let frame = item(call.encode_trailers(Ok(Some(headers(&[("grpc-status", "0")])))));
    assert_eq!(unb64(&frame), make_trailers_frame(&headers(&[("grpc-status", "0")])));
    assert!(matches!(call.poll_encode(Pulled::End), Next::Finished));
}

#[test]
fn response_without_trailers_finishes() {
    let mut call = WebCall::response(Encoding::Identity);
    assert_eq!(item(call.poll_data(Pulled::Data(b"raw".to_vec()))), b"raw".to_vec());
    assert!(matches!(call.poll_data(Pulled::End), Next::Trailers));
    assert!(matches!(call.encode_trailers(Ok(None)), Next::Finished));
}

#[test]
fn trailers_error_is_passed_on() {
    let mut call = WebCall::response(Encoding::Identity);
    assert!(matches!(call.encode_trailers(Err("gone".to_string())), Next::Fail(WebError::Transport(_))));
}

#[test]
fn response_chunks_are_encoded_one_by_one() {
    let mut call = WebCall::response(Encoding::Base64);
    let a = item(call.poll_encode(Pulled::Data(b"ab".to_vec())));
    let b = item(call.poll_encode(Pulled::Data(b"c".to_vec())));
    assert_eq!(a, b"YWI=".to_vec());
    assert_eq!(b, b"Yw==".to_vec());
    let mut joined = a.clone();
    joined.extend_from_slice(&b);
    assert!(base64::engine::general_purpose::STANDARD.decode(&joined).is_err());
}

#[test]
fn text_call_round_trip() {
    let message = b"\x00\x00\x00\x00\x03abc".to_vec();
    let request = headers(&[
        ("content-type", "application/grpc-web-text"),
        ("accept", "application/grpc-web-text"),
    ]);
    let service = WebService::new((), Cors::new(Config::new()));
    let (encoding, accept) = match service.route(&request, b"POST", HttpVersion::Http11) {
        Route::Forward { encoding, accept, cors } => {
            assert_eq!(cors.len(), 0);
            (encoding, accept)
        }
        _ => panic!("expected the call to go through"),
    };
    assert_eq!(encoding, Encoding::Base64);
    assert_eq!(accept, Encoding::Base64);
    assert_eq!(decode_body(&vec![b64(&message)], encoding).ok(), Some(message.clone()));

    let mut response = headers(&[("content-type", "application/grpc")]);
    coerce_response_headers(&mut response, accept);
    assert_eq!(value(&response, "content-type"), Some(&b"application/grpc-web-text+proto"[..]));

    let mut call = WebCall::response(accept);
    let mut body = Vec::new();
    body.extend(unb64(&item(call.poll_data(Pulled::Data(message.clone())))));
    assert!(matches!(call.poll_data(Pulled::End), Next::Trailers));
    body.extend(unb64(&item(call.encode_trailers(Ok(Some(headers(&[("grpc-status", "0")])))))));
    let mut expected = message.clone();
    expected.extend_from_slice(&[0x80, 0, 0, 0, 15]);
    expected.extend_from_slice(b"grpc-status:0\r\n");
    assert_eq!(body, expected);
}

#[test]
fn allowed_origin_gets_cors_headers() {
    let service = WebLayer::new(foo_only()).layer(());
    let request = headers(&[("content-type", "application/grpc-web"), ("origin", "http://foo.com")]);
    match service.route(&request, b"POST", HttpVersion::Http11) {
        Route::Forward { cors, encoding, accept } => {
            assert_eq!(encoding, Encoding::Identity);
            assert_eq!(accept, Encoding::Identity);
            assert_eq!(value(&cors, "access-control-allow-origin"), Some(&b"http://foo.com"[..]));
            assert_eq!(value(&cors, "access-control-allow-credentials"), Some(&b"true"[..]));
            assert_eq!(
                value(&cors, "access-control-expose-headers"),
                Some(&b"grpc-status,grpc-message"[..])
            );
        }
        _ => panic!("expected the call to go through"),
    }
}

#[test]
fn disallowed_origin_is_forbidden() {
    let service = WebService::new((), foo_only());
    let request = headers(&[("content-type", "application/grpc-web"), ("origin", "http://bar.com")]);
    match service.route(&request, b"POST", HttpVersion::Http11) {
        Route::Respond { status, headers } => {
            assert_eq!(status, 403);
            assert_eq!(headers.len(), 0);
        }
        _ => panic!("expected 403"),
    }
    assert!(matches!(foo_only().simple(&request), Err(CorsError::OriginNotAllowed)));
}

#[test]
fn no_credentials_header_when_disabled() {
    let cors = Cors::new(Config::new().allow_credentials(false));
    let out = cors.simple(&headers(&[("origin", "http://x.org")])).ok().unwrap();
    assert_eq!(value(&out, "access-control-allow-origin"), Some(&b"http://x.org"[..]));
    assert_eq!(value(&out, "access-control-allow-credentials"), None);
}

#[test]
fn no_origin_no_cors_headers() {
    let out = foo_only().simple(&Headers::new()).ok().unwrap();
    assert_eq!(out.len(), 0);
}

#[test]
fn non_post_call_is_method_not_allowed() {
    let service = WebService::new((), Cors::new(Config::default()));
    let request = headers(&[("content-type", "application/grpc-web+proto")]);
    match service.route(&request, b"GET", HttpVersion::Http11) {
        Route::Respond { status, .. } => assert_eq!(status, 405),
        _ => panic!("expected 405"),
    }
}

fn preflight_request(origin: &str, method: &str) -> Headers {
    headers(&[
        ("origin", origin),
        ("access-control-request-headers", "content-type,x-grpc-web"),
        ("access-control-request-method", method),
    ])
}

#[test]
fn preflight_for_disallowed_origin_is_forbidden() {
    let service = WebService::new((), foo_only());
    match service.route(&preflight_request("http://bar.com", "POST"), b"OPTIONS", HttpVersion::Http11) {
        Route::Respond { status, headers } => {
            assert_eq!(status, 403);
            assert_eq!(headers.len(), 0);
        }
        _ => panic!("expected 403"),
    }
}

#[test]
fn preflight_for_allowed_origin_is_no_content() {
    let service = WebService::new((), foo_only());
    match service.route(&preflight_request("http://foo.com", "POST"), b"OPTIONS", HttpVersion::Http11) {
        Route::Respond { status, headers } => {
            assert_eq!(status, 204);
            assert_eq!(value(&headers, "access-control-allow-methods"), Some(&b"POST,OPTIONS"[..]));
            assert_eq!(
                value(&headers, "access-control-allow-headers"),
                Some(&b"content-type,x-grpc-web"[..])
            );
            assert_eq!(value(&headers, "access-control-allow-origin"), Some(&b"http://foo.com"[..]));
            assert_eq!(value(&headers, "access-control-max-age"), Some(&b"86400"[..]));
        }
        _ => panic!("expected 204"),
    }
}

#[test]
fn preflight_with_other_method_is_forbidden() {
    let cors = foo_only();
    let request = preflight_request("http://foo.com", "GET");
    let result = cors.preflight(&request, &b"http://foo.com".to_vec(), &b"x-grpc-web".to_vec());
    assert!(matches!(result, Err(CorsError::MethodNotAllowed)));
    let service = WebService::new((), foo_only());
    match service.route(&request, b"OPTIONS", HttpVersion::Http11) {
        Route::Respond { status, .. } => assert_eq!(status, 403),
        _ => panic!("expected 403"),
    }
}

#[test]
fn preflight_without_max_age() {
    let cors = Cors::new(Config::new().max_age(None));
    let out = cors
        .preflight(&preflight_request("http://a.b", "OPTIONS"), &b"http://a.b".to_vec(), &b"x-grpc-web".to_vec())
        .ok()
        .unwrap();
    assert_eq!(value(&out, "access-control-max-age"), None);
    let cors = Cors::new(Config::new().max_age(Some(90)));
    let out = cors
        .preflight(&preflight_request("http://a.b", "POST"), &b"http://a.b".to_vec(), &b"x-grpc-web".to_vec())
        .ok()
        .unwrap();
    assert_eq!(value(&out, "access-control-max-age"), Some(&b"90"[..]));
}

#[test]
fn plain_http1_request_is_bad_request() {
    let service = WebService::new((), Cors::new(Config::new()));
    let request = headers(&[("content-type", "application/json")]);
    match service.route(&request, b"POST", HttpVersion::Http11) {
        Route::Respond { status, headers } => {
            assert_eq!(status, 400);
            assert_eq!(headers.len(), 0);
        }
        _ => panic!("expected 400"),
    }
}

#[test]
fn http2_request_passes_through() {
    let service = WebService::new((), Cors::new(Config::new()));
    for ct in ["application/grpc", "application/json", "text/plain"] {
        let request = headers(&[("content-type", ct)]);
        assert!(matches!(service.route(&request, b"POST", HttpVersion::Http2), Route::PassThrough));
    }
    assert!(matches!(service.route(&Headers::new(), b"GET", HttpVersion::Http2), Route::PassThrough));
}

#[test]
fn classify_in_flight() {
    let h = headers(&[("content-type", "application/grpc-web-text+proto"), ("accept", "application/grpc-web")]);
    match RequestKind::new(&h, b"POST", HttpVersion::Http11) {
        RequestKind::InFlight { method, encoding, accept } => {
            assert_eq!(method, b"POST".to_vec());
            assert_eq!(encoding, Encoding::Base64);
            assert_eq!(accept, Encoding::Identity);
        }
        _ => panic!("expected an in-flight call"),
    }
}

#[test]
fn classify_preflight_needs_grpc_web_header() {
    let h = headers(&[("origin", "http://a"), ("access-control-request-headers", "content-type")]);
    assert!(matches!(RequestKind::new(&h, b"OPTIONS", HttpVersion::Http11), RequestKind::Other(HttpVersion::Http11)));
    let h = headers(&[("origin", "http://a"), ("access-control-request-headers", "x-grpc-web")]);
    match RequestKind::new(&h, b"OPTIONS", HttpVersion::Http11) {
        RequestKind::PreFlight { origin, request_headers } => {
            assert_eq!(origin, b"http://a".to_vec());
            assert_eq!(request_headers, b"x-grpc-web".to_vec());
        }
        _ => panic!("expected a preflight"),
    }
    assert!(matches!(RequestKind::new(&h, b"POST", HttpVersion::Http10), RequestKind::Other(HttpVersion::Http10)));
}

#[test]
fn encoding_from_headers() {
    let h = headers(&[("content-type", "application/grpc-web-text"), ("accept", "application/grpc-web+proto")]);
    assert_eq!(Encoding::from_content_type(&h), Encoding::Base64);
    assert_eq!(Encoding::from_accept(&h), Encoding::Identity);
    assert_eq!(Encoding::from_content_type(&Headers::new()), Encoding::Identity);
    assert_eq!(Encoding::Base64.to_content_type(), "application/grpc-web-text+proto");
    assert_eq!(Encoding::Identity.to_content_type(), "application/grpc-web+proto");
}

#[test]
fn request_headers_are_rewritten() {
    let mut h = headers(&[
        ("content-length", "10"),
        ("content-type", "application/grpc-web"),
        ("x-custom", "1"),
        ("content-length", "12"),
    ]);
    coerce_request_headers(&mut h);
    assert_eq!(value(&h, "content-length"), None);
    assert_eq!(value(&h, "content-type"), Some(&b"application/grpc"[..]));
    assert_eq!(value(&h, "te"), Some(&b"trailers"[..]));
    assert_eq!(value(&h, "accept-encoding"), Some(&b"identity,deflate,gzip"[..]));
    assert_eq!(value(&h, "x-custom"), Some(&b"1"[..]));
}

#[test]
fn exposed_headers_are_lower_case_and_unique() {
    let config = Config::new().expose_headers(vec![b"X-Trace-Id".to_vec(), b"grpc-status".to_vec()]);
    let cors = Cors::new(config);
    let out = cors.common_headers(b"http://o".to_vec());
    assert_eq!(
        value(&out, "access-control-expose-headers"),
        Some(&b"grpc-status,grpc-message,x-trace-id"[..])
    );
}

#[test]
fn method_check() {
    assert!(is_method_allowed(Some(&b"POST".to_vec())));
    assert!(is_method_allowed(Some(&b"OPTIONS".to_vec())));
    assert!(!is_method_allowed(Some(&b"post".to_vec())));
    assert!(!is_method_allowed(Some(&b"GET".to_vec())));
    assert!(!is_method_allowed(None));
}

#[test]
fn join_values() {
    assert_eq!(join_header_value(&vec![]), Vec::<u8>::new());
    assert_eq!(join_header_value(&vec![b"a".to_vec()]), b"a".to_vec());
    assert_eq!(join_header_value(&vec![b"a".to_vec(), b"bc".to_vec()]), b"a,bc".to_vec());
}

#[test]
fn header_list_operations() {
    let mut h = headers(&[("a", "1"), ("b", "2"), ("a", "3")]);
    assert_eq!(value(&h, "a"), Some(&b"1"[..]));
    h.insert(b"a".to_vec(), b"9".to_vec());
    assert_eq!(value(&h, "a"), Some(&b"9"[..]));
    assert_eq!(h.len(), 2);
    h.remove(b"b");
    assert_eq!(value(&h, "b"), None);
    assert_eq!(h.len(), 1);
}
