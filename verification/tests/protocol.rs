use packet_browser::shared::compress::{brotli_compress, brotli_decompress, CompressionError};
use packet_browser::shared::protocol::{
    digest_etag, is_valid_etag, request_from_line, sanitized_html_etag, ProtocolError, Request, Response, Status,
};

#[test]
fn test_get_request_roundtrip() {
    let req = Request::Get {
        url: "https://example.com".to_string(),
        if_none_match: None,
    };
    let encoded = req.encode();
    let decoded = Request::decode(&encoded).unwrap();
    assert_eq!(req, decoded);
}

#[test]
fn test_post_request_roundtrip() {
    let req = Request::Post {
        url: "https://example.com/form".to_string(),
        body: b"field1=value1&field2=value2".to_vec(),
    };
    let encoded = req.encode();
    let decoded = Request::decode(&encoded).unwrap();
    assert_eq!(req, decoded);
}

#[test]
fn test_get_request_with_if_none_match_roundtrip() {
    let req = Request::Get {
        url: "https://example.com".to_string(),
        if_none_match: Some("aBcDeFgHiJkLmNoP".to_string()),
    };
    let encoded = req.encode();
    assert!(encoded.starts_with(b"GET https://example.com IF-NONE-MATCH aBcDeFgHiJkLmNoP\n"));
    let decoded = Request::decode(&encoded).unwrap();
    assert_eq!(req, decoded);
}

#[test]
fn test_get_request_without_if_none_match_roundtrip() {
    let req = Request::Get {
        url: "https://example.com".to_string(),
        if_none_match: None,
    };
    let encoded = req.encode();
    assert_eq!(encoded, b"GET https://example.com\n");
    let decoded = Request::decode(&encoded).unwrap();
    assert_eq!(req, decoded);
}

#[test]
fn test_response_encode_decode() {
    let resp = Response {
        status: Status::Success,
        etag: "-".to_string(),
        max_age: -1,
        payload: b"test payload".to_vec(),
    };
    let encoded = resp.encode();
    for &b in &encoded {
        assert!(
            b == b'\n' || (0x20..=0x7e).contains(&b),
            "wire byte 0x{:02x} is not telnet-safe",
            b,
        );
    }
    let (status, b64_len, _etag, _max_age, header_end) =
        Response::decode_header(&encoded).unwrap().unwrap();
    assert_eq!(status, Status::Success);
    let payload =
        Response::decode_payload(&encoded[header_end..header_end + b64_len as usize]).unwrap();
    assert_eq!(payload, b"test payload");
}

#[test]
fn test_response_resyncs_past_garbage() {
    let resp = Response {
        status: Status::Failure,
        etag: "-".to_string(),
        max_age: -1,
        payload: b"nope".to_vec(),
    };
    let mut with_prefix = b"junk banner text\r".to_vec();
    with_prefix.extend_from_slice(&resp.encode());

    let (status, b64_len, _etag, _max_age, header_end) =
        Response::decode_header(&with_prefix).unwrap().unwrap();
    assert_eq!(status, Status::Failure);
    let payload =
        Response::decode_payload(&with_prefix[header_end..header_end + b64_len as usize]).unwrap();
    assert_eq!(payload, b"nope");
}

#[test]
fn test_response_no_binary_bytes_in_wire() {
    let payload: Vec<u8> = (0u8..=255).collect();
    let encoded = Response {
        status: Status::Success,
        etag: "-".to_string(),
        max_age: -1,
        payload: payload.clone(),
    }
    .encode();

    for &b in &encoded {
        assert!(b != 0x00 && b != b'\r' && b != 0xff);
    }

    let (_, b64_len, _etag, _max_age, header_end) =
        Response::decode_header(&encoded).unwrap().unwrap();
    let round_tripped =
        Response::decode_payload(&encoded[header_end..header_end + b64_len as usize]).unwrap();
    assert_eq!(round_tripped, payload);
}

#[test]
fn test_status_codes() {
    assert_eq!(Status::try_from(0x00).unwrap(), Status::Success);
    assert_eq!(Status::try_from(0x01).unwrap(), Status::Failure);
    assert_eq!(Status::try_from(0x02).unwrap(), Status::Blocked);
    assert_eq!(Status::try_from(0x03).unwrap(), Status::NotModified);
    assert!(Status::try_from(0x04).is_err());
}

#[test]
fn decode_header_rejects_malformed_etag() {
    let bad = b"RESP0 3 aBcDeFgHiJkLmNoPq 0\nabc\n";
    assert!(matches!(
        Response::decode_header(bad),
        Err(ProtocolError::InvalidResponse)
    ));
    let bad = b"RESP0 3 aBcDeFgHiJk+mNoP 0\nabc\n";
    assert!(matches!(
        Response::decode_header(bad),
        Err(ProtocolError::InvalidResponse)
    ));
    let ok = b"RESP1 3 - -1\nabc\n";
    assert!(Response::decode_header(ok).is_ok());
}

#[test]
fn test_response_with_etag_and_max_age_roundtrip() {
    let resp = Response {
        status: Status::Success,
        etag: "aBcDeFgHiJkLmNoP".to_string(),
        max_age: 3600,
        payload: b"body".to_vec(),
    };
    let encoded = resp.encode();
    assert!(encoded.starts_with(b"RESP0 "));
    let (status, b64_len, etag, max_age, header_end) =
        Response::decode_header(&encoded).unwrap().unwrap();
    assert_eq!(status, Status::Success);
    assert_eq!(etag, "aBcDeFgHiJkLmNoP");
    assert_eq!(max_age, 3600);
    let payload =
        Response::decode_payload(&encoded[header_end..header_end + b64_len as usize]).unwrap();
    assert_eq!(payload, b"body");
}

#[test]
fn test_not_modified_status_roundtrip() {
    let resp = Response {
        status: Status::NotModified,
        etag: "aBcDeFgHiJkLmNoP".to_string(),
        max_age: 3600,
        payload: Vec::new(),
    };
    let encoded = resp.encode();
    assert!(encoded.starts_with(b"RESP3 0 aBcDeFgHiJkLmNoP 3600\n"));
    let (status, b64_len, etag, max_age, _) = Response::decode_header(&encoded).unwrap().unwrap();
    assert_eq!(status, Status::NotModified);
    assert_eq!(b64_len, 0);
    assert_eq!(etag, "aBcDeFgHiJkLmNoP");
    assert_eq!(max_age, 3600);
}

#[test]
fn test_response_negative_max_age_roundtrip() {
    let resp = Response {
        status: Status::Success,
        etag: "-".to_string(),
        max_age: -1,
        payload: b"x".to_vec(),
    };
    let encoded = resp.encode();
    let (_status, _b64_len, etag, max_age, _header_end) =
        Response::decode_header(&encoded).unwrap().unwrap();
    assert_eq!(etag, "-");
    assert_eq!(max_age, -1);
}

#[test]
fn test_wire_bytes_still_telnet_safe_with_new_fields() {
    let payload: Vec<u8> = (0u8..=255).collect();
    let encoded = Response {
        status: Status::Success,
        etag: "aBcDeFgHiJkLmNoP".to_string(),
        max_age: 42,
        payload,
    }
    .encode();
    for &b in &encoded {
        assert!(
            b == b'\n' || (0x20..=0x7e).contains(&b),
            "wire byte 0x{:02x} not telnet-safe",
            b
        );
    }
}

#[test]
fn etag_is_sixteen_chars() {
    assert_eq!(sanitized_html_etag("hello").len(), 16);
    assert_eq!(sanitized_html_etag("").len(), 16);
}

#[test]
fn etag_is_deterministic() {
    assert_eq!(sanitized_html_etag("abc"), sanitized_html_etag("abc"));
}

#[test]
fn etag_differs_on_content_change() {
    assert_ne!(sanitized_html_etag("abc"), sanitized_html_etag("abd"));
}

#[test]
fn etag_uses_base64url_alphabet() {
    let e = sanitized_html_etag("hello world");
    for c in e.chars() {
        assert!(
            c.is_ascii_alphanumeric() || c == '-' || c == '_',
            "unexpected char {:?} in etag {}",
            c,
            e,
        );
    }
}

#[test]
fn etag_is_the_start_of_the_sha256() {
    // SHA-256 of "abc" begins ba7816bf 8f01cfea 414140de.
    assert_eq!(sanitized_html_etag("abc"), "ungWv48Bz-pBQUDe");
    assert_eq!(digest_etag(&[0; 32]), "AAAAAAAAAAAAAAAA");
    assert_eq!(digest_etag(&[0xff; 12]), "________________");
    assert!(is_valid_etag("ungWv48Bz-pBQUDe"));
    assert!(is_valid_etag("-"));
    assert!(!is_valid_etag("ungWv48Bz-pBQUD"));
    assert!(!is_valid_etag(""));
}

#[test]
fn response_wire_is_exact() {
    let resp = Response {
        status: Status::Blocked,
        etag: "-".to_string(),
        max_age: -1,
        payload: b"hi?>".to_vec(),
    };
    assert_eq!(resp.encode(), b"RESP2 8 - -1\naGk/Pg==\n");
}

#[test]
fn header_waits_for_the_rest() {
    let wire = b"RESP0 4 - 0\nYWJj\n";
    for n in 0..12 {
        assert!(Response::decode_header(&wire[..n]).unwrap().is_none());
    }
    let (status, len, etag, age, end) = Response::decode_header(&wire[..12]).unwrap().unwrap();
    assert_eq!((status, len, etag.as_str(), age, end), (Status::Success, 4, "-", 0, 12));
    assert!(Response::decode_header(b"").unwrap().is_none());
    assert!(Response::decode_header(b"RESP9 0 - 0\n").is_err());
    assert!(Response::decode_header(b"RESP0 0 -\n").is_err());
    assert!(Response::decode_header(b"RESP0 x - 0\n").is_err());
}

#[test]
fn payload_that_is_no_base64_is_refused() {
    assert!(matches!(
        Response::decode_payload(b"####"),
        Err(ProtocolError::InvalidResponse)
    ));
    assert!(Response::decode_payload(b"YQ").is_err());
    assert_eq!(Response::decode_payload(b"").unwrap(), Vec::<u8>::new());
}

#[test]
fn requests_that_are_cut_short_are_refused() {
    assert!(matches!(Request::decode(b"GET x"), Err(ProtocolError::InvalidRequest)));
    assert!(matches!(Request::decode(b"PUT x\n"), Err(ProtocolError::InvalidRequest)));
    assert!(Request::decode(b"POST x\n\x00\x00\x00").is_err());
    assert!(Request::decode(b"POST x\n\x00\x00\x00\x02a").is_err());
    assert_eq!(
        Request::decode(b"POST x\n\x00\x00\x00\x02abZZ").unwrap(),
        Request::Post { url: "x".to_string(), body: b"ab".to_vec() }
    );
    assert!(Request::decode(b"GET \xff\n").is_err());
}

#[test]
fn a_line_is_split_at_its_first_sentinel() {
    assert_eq!(
        request_from_line("u IF-NONE-MATCH a IF-NONE-MATCH b".to_string()),
        Request::Get { url: "u".to_string(), if_none_match: Some("a IF-NONE-MATCH b".to_string()) }
    );
}

#[test]
fn protocol_messages() {
    assert_eq!(ProtocolError::InvalidRequest.message(), "Invalid request format");
    assert_eq!(ProtocolError::InvalidResponse.message(), "Invalid response format");
    assert_eq!(ProtocolError::UrlTooLong.message(), "URL too long");
    assert_eq!(ProtocolError::PayloadTooLarge.message(), "Payload too large");
    assert_eq!(Status::NotModified.code(), 3);
}

#[test]
fn test_compress_decompress_roundtrip() {
    let original = b"Hello, world! This is a test of brotli compression.";
    let compressed = brotli_compress(original, 11).unwrap();
    let decompressed = brotli_decompress(&compressed).unwrap();
    assert_eq!(original.as_slice(), decompressed.as_slice());
}

#[test]
fn test_compress_empty() {
    let original = b"";
    let compressed = brotli_compress(original, 11).unwrap();
    let decompressed = brotli_decompress(&compressed).unwrap();
    assert_eq!(original.as_slice(), decompressed.as_slice());
}

#[test]
fn test_compress_html() {
    let html = b"<html><head><title>Test</title></head><body><h1>Hello</h1><p>This is a test page with some content.</p></body></html>";
    let compressed = brotli_compress(html, 11).unwrap();
    let decompressed = brotli_decompress(&compressed).unwrap();
    assert_eq!(html.as_slice(), decompressed.as_slice());

    let ratio = compressed.len() as f64 / html.len() as f64;
    assert!(ratio < 1.0, "Compression should reduce size");
}

#[test]
fn test_decompress_invalid() {
    let invalid = b"not valid brotli data";
    assert!(brotli_decompress(invalid).is_err());
}

#[test]
fn compression_messages() {
    assert_eq!(
        CompressionError::CompressFailed("x".to_string()).message(),
        "Compression failed: x"
    );
    assert_eq!(
        CompressionError::DecompressFailed("y".to_string()).message(),
        "Decompression failed: y"
    );
}

#[test]
fn headers_end_alike_and_stay_settled() {
    let feed = Response::decode_header(b"RESP0 8 - -1\nrest").unwrap().unwrap();
    let back = Response::decode_header(b"RESP0 8 - -1\rrest").unwrap().unwrap();
    assert_eq!(feed, back);
    assert!(Response::decode_header(b"RESP9 ").is_err());
    assert!(Response::decode_header(b"RESP9 RESP0 8 - -1\n").is_err());
}
