use datadog_logs::batch::FlushedBatch;
use datadog_logs::encoding::{EncodedFragment, Encoding};
use datadog_logs::request::{
    assemble, build_request, decompress, payload_rows, BuildError, Compression, Header,
    RequestBuilder, RequestChecks, WireRequest,
};
use std::io::Read;

fn header(name: &str, value: &str) -> Header {
    Header { name: name.to_string(), value: value.to_string() }
}

fn batch(key: &str, payloads: &[&str]) -> FlushedBatch {
    let fragments: Vec<EncodedFragment> = payloads
        .iter()
        .map(|p| EncodedFragment { key: key.to_string(), payload: p.as_bytes().to_vec(), token: 0 })
        .collect();
    let byte_size = payloads.iter().map(|p| p.len()).sum();
    FlushedBatch { key: key.to_string(), fragments, byte_size }
}

fn builder(encoding: Encoding, compression: Compression) -> RequestBuilder {
    RequestBuilder { uri: "http://127.0.0.1:1234/v1/input".to_string(), encoding, compression }
}

fn gunzip_with_flate2(data: &[u8]) -> Vec<u8> {
    let mut out = Vec::new();
    flate2::read::GzDecoder::new(data).read_to_end(&mut out).unwrap();
    out
}

const ALL_OK: RequestChecks = RequestChecks { uri_ok: true, content_type_ok: true, api_key_ok: true };

#[test]
fn assemble_sets_the_headers_in_order() {
    let req = assemble("http://h/", "key", "text/plain", ALL_OK, false, Some(b"hello".to_vec()))
        .unwrap();
    assert_eq!(
        req,
        WireRequest {
            uri: "http://h/".to_string(),
            headers: vec![
                header("Content-Type", "text/plain"),
                header("DD-API-KEY", "key"),
                header("Content-Length", "5"),
            ],
            body: b"hello".to_vec(),
        }
    );
    let packed = assemble("http://h/", "key", "text/plain", ALL_OK, true, Some(vec![1, 2, 3]))
        .unwrap();
    assert_eq!(
        packed.headers,
        vec![
            header("Content-Type", "text/plain"),
            header("DD-API-KEY", "key"),
            header("Content-Encoding", "gzip"),
            header("Content-Length", "3"),
        ]
    );
    assert_eq!(packed.body, vec![1, 2, 3]);
}

#[test]
fn assemble_reports_the_first_failure() {
    let bad_uri = RequestChecks { uri_ok: false, content_type_ok: false, api_key_ok: false };
    let bad_type = RequestChecks { uri_ok: true, content_type_ok: false, api_key_ok: true };
    let bad_key = RequestChecks { uri_ok: true, content_type_ok: true, api_key_ok: false };
    assert_eq!(assemble("u", "k", "t", bad_uri, true, None), Err(BuildError::Compression));
    assert_eq!(assemble("u", "k", "t", ALL_OK, true, None), Err(BuildError::Compression));
    assert_eq!(assemble("u", "k", "t", bad_uri, false, Some(vec![])), Err(BuildError::InvalidUri));
    assert_eq!(
        assemble("u", "k", "t", bad_type, false, Some(vec![])),
        Err(BuildError::InvalidHeader)
    );
    assert_eq!(
        assemble("u", "k", "t", bad_key, false, Some(vec![])),
        Err(BuildError::InvalidHeader)
    );
}

#[test]
fn header_lookup_is_by_exact_name() {
    let req = assemble("http://h/", "key", "text/plain", ALL_OK, true, Some(vec![0; 12])).unwrap();
    assert_eq!(req.header("Content-Type").unwrap(), "text/plain");
    assert_eq!(req.header("DD-API-KEY").unwrap(), "key");
    assert_eq!(req.header("Content-Encoding").unwrap(), "gzip");
    assert_eq!(req.header("Content-Length").unwrap(), "12");
    assert_eq!(req.header("content-type"), None);
    assert_eq!(req.header("Accept"), None);
}

#[test]
fn uncompressed_body_passes_through() {
    let req = build_request(
        "http://127.0.0.1:1234",
        "atoken",
        "application/json",
        Compression::Uncompressed,
        b"[{\"message\":\"x\"}]".to_vec(),
    )
    .unwrap();
    assert_eq!(req.uri, "http://127.0.0.1:1234");
    assert_eq!(req.body, b"[{\"message\":\"x\"}]".to_vec());
    assert_eq!(
        req.headers,
        vec![
            header("Content-Type", "application/json"),
            header("DD-API-KEY", "atoken"),
            header("Content-Length", "17"),
        ]
    );
}

#[test]
fn an_empty_body_has_length_zero() {
    let req = build_request("http://h/", "k", "text/plain", Compression::Uncompressed, Vec::new())
        .unwrap();
    assert_eq!(req.header("Content-Length").unwrap(), "0");
    assert_eq!(req.body, Vec::<u8>::new());
}

#[test]
fn gzip_body_reads_back_as_the_plain_body() {
    let plain: Vec<u8> = (0..5000u32).map(|i| (i % 7) as u8 + b'a').collect();
    for level in [Some(0), Some(1), Some(6), Some(9), None] {
        let req = build_request(
            "http://h/",
            "k",
            "text/plain",
            Compression::Gzip(level),
            plain.clone(),
        )
        .unwrap();
        assert_ne!(req.body, plain);
        assert_eq!(&req.body[..2], &[0x1f, 0x8b]);
        assert_eq!(req.header("Content-Encoding").unwrap(), "gzip");
        assert_eq!(req.header("Content-Length").unwrap(), &req.body.len().to_string());
        assert_eq!(decompress(Compression::Gzip(level), &req.body), Ok(plain.clone()));
        assert_eq!(gunzip_with_flate2(&req.body), plain);
    }
}

#[test]
fn gzip_of_an_empty_body_reads_back_empty() {
    let req =
        build_request("http://h/", "k", "text/plain", Compression::Gzip(None), Vec::new()).unwrap();
    assert!(!req.body.is_empty());
    assert_eq!(decompress(Compression::Gzip(None), &req.body), Ok(Vec::new()));
}

#[test]
fn gzip_default_level_is_six() {
    let plain: Vec<u8> = (0..20000u32).map(|i| ((i * i) % 251) as u8).collect();
    let by_default =
        build_request("http://h/", "k", "text/plain", Compression::Gzip(None), plain.clone())
            .unwrap();
    let at_six =
        build_request("http://h/", "k", "text/plain", Compression::Gzip(Some(6)), plain.clone())
            .unwrap();
    let at_one =
        build_request("http://h/", "k", "text/plain", Compression::Gzip(Some(1)), plain.clone())
            .unwrap();
    assert_eq!(by_default.body, at_six.body);
    assert_ne!(by_default.body, at_one.body);
}

#[test]
fn gzip_level_above_nine_is_refused() {
    assert_eq!(
        build_request("http://h/", "k", "text/plain", Compression::Gzip(Some(10)), vec![1]),
        Err(BuildError::InvalidLevel)
    );
    assert_eq!(
        build_request("not a uri", "k\n", "text/plain", Compression::Gzip(Some(77)), vec![1]),
        Err(BuildError::InvalidLevel)
    );
}

#[test]
fn a_bad_endpoint_is_refused() {
    for compression in [Compression::Uncompressed, Compression::Gzip(None)] {
        assert_eq!(
            build_request("not a uri", "k", "text/plain", compression, vec![1]),
            Err(BuildError::InvalidUri)
        );
        assert_eq!(
            build_request("", "k\n", "text/plain", compression, vec![1]),
            Err(BuildError::InvalidUri)
        );
    }
}

#[test]
fn a_bad_header_value_is_refused() {
    for bad in ["line\nbreak", "nul\0", "del\x7f", "cr\r"] {
        assert_eq!(
            build_request("http://h/", bad, "text/plain", Compression::Uncompressed, vec![1]),
            Err(BuildError::InvalidHeader)
        );
        assert_eq!(
            build_request("http://h/", "k", bad, Compression::Uncompressed, vec![1]),
            Err(BuildError::InvalidHeader)
        );
    }
    for good in ["with space", "tab\there", "caf\u{e9}", ""] {
        let req = build_request("http://h/", good, "text/plain", Compression::Uncompressed, vec![])
            .unwrap();
        assert_eq!(req.header("DD-API-KEY").unwrap(), good);
    }
}

#[test]
fn decompress_of_a_plain_body_is_the_body() {
    assert_eq!(decompress(Compression::Uncompressed, b"abc"), Ok(b"abc".to_vec()));
    assert_eq!(decompress(Compression::Uncompressed, b""), Ok(Vec::new()));
}

#[test]
fn decompress_of_what_is_no_gzip_stream_fails() {
    assert_eq!(decompress(Compression::Gzip(None), b"plainly not gzip"), Err(BuildError::Compression));
    assert_eq!(decompress(Compression::Gzip(None), b""), Err(BuildError::Compression));
}

#[test]
fn payloads_are_copied_out_in_order() {
    let b = batch("k", &["a", "bc", "", "d"]);
    assert_eq!(
        payload_rows(&b.fragments),
        vec![b"a".to_vec(), b"bc".to_vec(), b"".to_vec(), b"d".to_vec()]
    );
    assert_eq!(payload_rows(&Vec::new()), Vec::<Vec<u8>>::new());
}

#[test]
fn flat_body_is_the_lines_one_after_the_other() {
    let b = builder(Encoding::Flat, Compression::Uncompressed);
    assert_eq!(b.content_type(), "text/plain");
    assert_eq!(b.serialize(&batch("k", &["one\n", "two\n", "three\n"])), b"one\ntwo\nthree\n".to_vec());
    assert_eq!(b.serialize(&batch("k", &[])), Vec::<u8>::new());
    let req = b.build(&batch("pkc", &["one\n", "two\n"])).unwrap();
    assert_eq!(req.body, b"one\ntwo\n".to_vec());
    assert_eq!(req.uri, "http://127.0.0.1:1234/v1/input");
    assert_eq!(
        req.headers,
        vec![
            header("Content-Type", "text/plain"),
            header("DD-API-KEY", "pkc"),
            header("Content-Length", "8"),
        ]
    );
}

#[test]
fn structured_body_is_a_json_array_without_the_key() {
    let b = builder(Encoding::Structured, Compression::Uncompressed);
    assert_eq!(b.content_type(), "application/json");
    assert_eq!(b.serialize(&batch("k", &[])), b"[]".to_vec());
    let req = b.build(&batch("vvo", &["{\"message\":\"a\"}", "{\"message\":\"b\"}"])).unwrap();
    assert_eq!(req.body, b"[{\"message\":\"a\"},{\"message\":\"b\"}]".to_vec());
    assert_eq!(req.header("DD-API-KEY").unwrap(), "vvo");
    assert_eq!(req.header("Content-Type").unwrap(), "application/json");
    assert_eq!(req.header("Content-Length").unwrap(), "33");
    assert!(!String::from_utf8(req.body.clone()).unwrap().contains("vvo"));
}

#[test]
fn built_request_is_compressed_as_configured() {
    let b = builder(Encoding::Structured, Compression::Gzip(Some(3)));
    let one = batch("k", &["{\"message\":\"a\"}"]);
    let req = b.build(&one).unwrap();
    assert_eq!(req.header("Content-Encoding").unwrap(), "gzip");
    assert_eq!(gunzip_with_flate2(&req.body), b.serialize(&one));
    assert_eq!(decompress(b.compression, &req.body), Ok(b"[{\"message\":\"a\"}]".to_vec()));
    let bad = builder(Encoding::Flat, Compression::Gzip(Some(12)));
    assert_eq!(bad.build(&one), Err(BuildError::InvalidLevel));
    let mut nowhere = builder(Encoding::Flat, Compression::Uncompressed);
    nowhere.uri = "::".to_string();
    assert_eq!(nowhere.build(&one), Err(BuildError::InvalidUri));
    assert_eq!(
        builder(Encoding::Flat, Compression::Uncompressed).build(&batch("bad\nkey", &["x"])),
        Err(BuildError::InvalidHeader)
    );
}
