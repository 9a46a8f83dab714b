use urlrelay::base64url;
use urlrelay::relay::decode_target;
use urlrelay::relay::plan_reply;
use urlrelay::relay::RelayRejection;
use urlrelay::relay::RelayReply;
use urlrelay::relay::UpstreamOutcome;

#[test]
fn encode_agrees_with_base64_crate() {
    let samples: Vec<Vec<u8>> = vec![
        vec![],
        vec![0xFF],
        vec![0x00, 0x01],
        b"hello".to_vec(),
        b"http://localhost:1/".to_vec(),
        vec![0xFB, 0xEF, 0xBE, 0xFF, 0x00, 0x10, 0x83],
    ];
    for bytes in samples {
        let ours = base64url::encode(&bytes);
        let theirs = base64::encode_config(&bytes, base64::URL_SAFE_NO_PAD);
        assert_eq!(ours, theirs.as_bytes().to_vec());
    }
}

#[test]
fn decode_inverts_encode() {
    let samples: Vec<Vec<u8>> = vec![
        vec![],
        vec![0xFF],
        vec![0x00],
        vec![0x01, 0x02],
        b"hello world".to_vec(),
        vec![0xDE, 0xAD, 0xBE, 0xEF],
    ];
    for bytes in samples {
        let encoded = base64url::encode(&bytes);
        assert_eq!(base64url::decode(&encoded), Some(bytes));
    }
}

#[test]
fn decode_accepts_crate_encoding() {
    let url = "http://example.com/a?b=c";
    let encoded = base64::encode_config(url.as_bytes(), base64::URL_SAFE_NO_PAD);
    assert_eq!(decode_target(encoded.as_bytes()), Ok(url.to_string()));
}

#[test]
fn decode_target_hello() {
    assert_eq!(decode_target(b"aGVsbG8"), Ok("hello".to_string()));
}

#[test]
fn empty_path_decodes_to_empty_url() {
    assert_eq!(decode_target(b""), Ok(String::new()));
}

#[test]
fn plus_is_rejected_as_bad_base64() {
    let r = decode_target(b"aGVs+bG8");
    assert_eq!(r, Err(RelayRejection::BadBase64));
    let rejection = r.unwrap_err();
    assert_eq!(rejection.status(), 400);
    assert_eq!(rejection.message(), "Failed to decode base64 url param");
}

#[test]
fn slash_is_rejected_as_bad_base64() {
    assert_eq!(decode_target(b"aGVs/bG8"), Err(RelayRejection::BadBase64));
}

#[test]
fn padding_is_rejected_as_bad_base64() {
    assert_eq!(decode_target(b"aGVsbG8="), Err(RelayRejection::BadBase64));
}

#[test]
fn lone_trailing_sextet_is_rejected() {
    assert_eq!(decode_target(b"aGVsb"), Err(RelayRejection::BadBase64));
}

#[test]
fn nonzero_trailing_bits_are_rejected() {
    // 'Q' and 'R' stand for 16 and 17: the low four bits of the second
    // sextet are not zero, so no byte sequence encodes to this text.
    assert_eq!(base64url::decode(b"QR"), None);
    assert_eq!(decode_target(b"QR"), Err(RelayRejection::BadBase64));
}

#[test]
fn non_utf8_bytes_are_rejected_as_bad_utf8() {
    let encoded = base64url::encode(&[0xFF]);
    assert_eq!(encoded, b"_w".to_vec());
    let r = decode_target(&encoded);
    assert_eq!(r, Err(RelayRejection::BadUtf8));
    let rejection = r.unwrap_err();
    assert_eq!(rejection.status(), 400);
    assert_eq!(rejection.message(), "Failed to convert bytes to utf8 string");
}

#[test]
fn unreachable_upstream_is_500() {
    let r = plan_reply(UpstreamOutcome::Unreachable);
    match r {
        RelayReply::Reject(rejection) => {
            assert_eq!(rejection, RelayRejection::FetchFailed);
            assert_eq!(rejection.status(), 500);
            assert_eq!(rejection.message(), "Request url failed");
        }
        RelayReply::Stream { .. } => panic!("an unreachable upstream must be rejected"),
    }
}

#[test]
fn upstream_404_is_500() {
    let r = plan_reply(UpstreamOutcome::Response { status: 404, content_type: None });
    match r {
        RelayReply::Reject(rejection) => {
            assert_eq!(rejection, RelayRejection::UpstreamNotSuccess);
            assert_eq!(rejection.status(), 500);
            assert_eq!(rejection.message(), "Request url status code is not success");
        }
        RelayReply::Stream { .. } => panic!("a non-success upstream status must be rejected"),
    }
}

#[test]
fn upstream_success_streams_and_mirrors_content_type() {
    let r = plan_reply(UpstreamOutcome::Response {
        status: 200,
        content_type: Some(b"text/plain".to_vec()),
    });
    match r {
        RelayReply::Stream { content_type } => {
            assert_eq!(content_type, Some(b"text/plain".to_vec()));
        }
        RelayReply::Reject(_) => panic!("a success upstream status must be streamed"),
    }
}

#[test]
fn upstream_success_without_content_type_omits_it() {
    let r = plan_reply(UpstreamOutcome::Response { status: 204, content_type: None });
    match r {
        RelayReply::Stream { content_type } => assert_eq!(content_type, None),
        RelayReply::Reject(_) => panic!("a success upstream status must be streamed"),
    }
}

#[test]
fn success_range_boundaries() {
    for (status, success) in [(199u16, false), (200, true), (299, true), (300, false)] {
        let r = plan_reply(UpstreamOutcome::Response { status, content_type: None });
        match (r, success) {
            (RelayReply::Stream { .. }, true) => {}
            (RelayReply::Reject(rejection), false) => {
                assert_eq!(rejection, RelayRejection::UpstreamNotSuccess);
            }
            _ => panic!("status {} classified wrongly", status),
        }
    }
}

#[test]
fn distinct_requests_are_independent() {
    let first = base64url::encode(b"http://127.0.0.1:1/first");
    let second = base64url::encode(b"http://127.0.0.1:2/second");
    let r1 = decode_target(&first);
    let r2 = decode_target(&second);
    assert_eq!(r1, Ok("http://127.0.0.1:1/first".to_string()));
    assert_eq!(r2, Ok("http://127.0.0.1:2/second".to_string()));
}
