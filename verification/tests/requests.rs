use ipfs_api::backend::{DecodeSession, ReqwestBackend};
use ipfs_api::error::{Error, MAX_RAW_BODY};

fn json(text: &str) -> serde_json::Value {
    serde_json::from_str(text).unwrap()
}

#[test]
fn success_session_decodes_two_records() {
    let mut session = DecodeSession::begin(200);
    assert!(session.is_decoding());
    session.on_chunk(&b"{\"a\":1}\n{\"a\":2}\n".to_vec());
    assert_eq!(session.next_record().unwrap(), Some(json("{\"a\":1}")));
    assert_eq!(session.next_record().unwrap(), Some(json("{\"a\":2}")));
    assert_eq!(session.next_record().unwrap(), None);
    assert!(session.on_end().is_none());
    assert!(session.release());
}

#[test]
fn every_2xx_status_selects_decoding() {
    let mut no_content = DecodeSession::begin(204);
    assert!(no_content.is_decoding());
    assert!(no_content.on_end().is_none());
    assert!(DecodeSession::begin(299).is_decoding());
    assert!(!DecodeSession::begin(199).is_decoding());
    assert!(!DecodeSession::begin(300).is_decoding());
    assert!(!DecodeSession::begin(404).is_decoding());
}

#[test]
fn server_error_after_full_drain() {
    let mut session = DecodeSession::begin(500);
    assert!(!session.is_decoding());
    session.on_chunk(&b"{\"Message\":\"no such".to_vec());
    session.on_chunk(&b" file\",\"Code\":0}".to_vec());
    match session.on_end() {
        Some(Error::Server { status, message, code }) => {
            assert_eq!(status, 500);
            assert_eq!(message, "no such file");
            assert_eq!(code, 0);
        }
        other => panic!("expected a server error, got {:?}", other),
    }
    assert!(session.release());
    assert!(!session.release());
}

#[test]
fn unparseable_error_body_is_protocol_error() {
    let mut session = DecodeSession::begin(500);
    session.on_chunk(&b"internal error".to_vec());
    match session.on_end() {
        Some(Error::Protocol { status, body }) => {
            assert_eq!(status, 500);
            assert_eq!(body, b"internal error".to_vec());
        }
        other => panic!("expected a protocol error, got {:?}", other),
    }
}

#[test]
fn oversized_raw_body_is_truncated() {
    let mut session = DecodeSession::begin(502);
    let big = vec![b'x'; MAX_RAW_BODY + 100];
    session.on_chunk(&big);
    match session.on_end() {
        Some(Error::Protocol { status, body }) => {
            assert_eq!(status, 502);
            assert_eq!(body.len(), MAX_RAW_BODY);
            assert_eq!(body, big[..MAX_RAW_BODY].to_vec());
        }
        other => panic!("expected a protocol error, got {:?}", other),
    }
}

#[test]
fn abandon_releases_exactly_once() {
    let mut session = DecodeSession::begin(200);
    session.on_chunk(&b"{\"n\":1}\n{\"n\":2}\n{\"n\":3}\n".to_vec());
    assert_eq!(session.next_record().unwrap(), Some(json("{\"n\":1}")));
    assert!(session.release());
    for _ in 0..5 {
        assert!(!session.release());
    }
}

#[test]
fn request_url_concatenates_base_and_path() {
    let backend = ReqwestBackend::build_with_base_uri("http://localhost:5001".to_string());
    assert_eq!(
        backend.request_url("/api/v0/version"),
        "http://localhost:5001/api/v0/version"
    );
}

#[test]
fn default_backend_addresses_local_daemon() {
    let backend = ReqwestBackend::default();
    assert_eq!(
        backend.request_url("/api/v0/id"),
        "http://localhost:5001/api/v0/id"
    );
}

#[test]
fn build_base_request_sets_method_url_and_query() {
    let backend = ReqwestBackend::build_with_base_uri("http://localhost:5001".to_string());
    let query = vec![("arg".to_string(), "hello world".to_string())];
    let request = backend
        .build_base_request("/api/v0/cat", &query, None)
        .unwrap();
    assert_eq!(request.method().as_str(), "POST");
    assert_eq!(request.url().path(), "/api/v0/cat");
    assert_eq!(request.url().query(), Some("arg=hello+world"));
}

#[test]
fn multipart_body_is_attached() {
    let backend = ReqwestBackend::build_with_base_uri("http://localhost:5001".to_string());
    let form = reqwest::multipart::Form::new().text("chunk", "data");
    let request = backend
        .build_base_request("/api/v0/add", &Vec::new(), Some(form))
        .unwrap();
    let content_type = request
        .headers()
        .get("content-type")
        .unwrap()
        .to_str()
        .unwrap();
    assert!(content_type.starts_with("multipart/form-data"));
}

#[test]
fn malformed_base_is_a_request_build_error() {
    let backend = ReqwestBackend::build_with_base_uri("not a url".to_string());
    match backend.build_base_request("/x", &Vec::new(), None) {
        Err(Error::RequestBuild { .. }) => {}
        other => panic!("expected a request-build error, got {:?}", other),
    }
}
