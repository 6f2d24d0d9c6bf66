use hydra::protocol::messages::VersionCheckResponse;
use hydra::server::{
    admit_request, check_auth, check_version_compatibility, not_found, query_param, request_ids, route,
    stream_file_path, tunnel_machine_id, tunnel_recv_uri, version_check_response, AuthHeader,
    Method, Route,
};

const ID: &str = "67e55044-10b1-426f-9247-bb680e5fe0c8";

#[test]
fn query_param_takes_first_match() {
    assert_eq!(query_param("a=1&b=2&a=3", "a="), Some("1".to_string()));
    assert_eq!(query_param("a=1&b=2", "b="), Some("2".to_string()));
    assert_eq!(query_param("a=1&b=2", "c="), None);
    assert_eq!(query_param("", "a="), None);
    assert_eq!(query_param("ab=1&a=", "a="), Some(String::new()));
}

#[test]
fn tunnel_machine_id_parses_uuid() {
    let q = format!("x=1&machine_id={ID}");
    let id = tunnel_machine_id(Some(&q)).unwrap();
    assert_eq!(id, uuid::Uuid::parse_str(ID).unwrap().as_u128());
}

#[test]
fn tunnel_machine_id_missing() {
    let e = tunnel_machine_id(None).unwrap_err();
    assert_eq!((e.code, e.message.as_str()), (400, "missing machine_id query param"));
    let e = tunnel_machine_id(Some("path=x")).unwrap_err();
    assert_eq!(e.message, "missing machine_id query param");
}

#[test]
fn tunnel_machine_id_invalid() {
    let e = tunnel_machine_id(Some("machine_id=not-a-uuid")).unwrap_err();
    assert_eq!((e.code, e.message.as_str()), (400, "invalid machine_id"));
}

#[test]
fn stream_file_path_decodes() {
    let p = stream_file_path(Some("path=%2Fnix%2Fstore%2Fabc-foo")).unwrap();
    assert_eq!(p, "/nix/store/abc-foo");
    let p = stream_file_path(Some("path=/nix/store/plain")).unwrap();
    assert_eq!(p, "/nix/store/plain");
}

#[test]
fn stream_file_path_errors() {
    let e = stream_file_path(Some("other=1")).unwrap_err();
    assert_eq!((e.code, e.message.as_str()), (400, "missing path query param"));
    let e = stream_file_path(Some("path=%FF")).unwrap_err();
    assert_eq!(e.code, 400);
    let why = urlencoding::decode("%FF").unwrap_err().to_string();
    assert_eq!(e.message, format!("invalid path encoding: {why}"));
}

#[test]
fn tunnel_recv_uri_encodes_id() {
    assert_eq!(tunnel_recv_uri(ID), format!("/rpc/tunnel/recv?machine_id={ID}"));
    assert_eq!(tunnel_recv_uri("a b/c"), "/rpc/tunnel/recv?machine_id=a%20b%2Fc");
}

#[test]
fn request_ids_parse_both() {
    let other = "0e9b6f4a-2b1d-4c3e-8f5a-1a2b3c4d5e6f";
    let (b, m) = request_ids(ID, other).unwrap();
    assert_eq!(b, uuid::Uuid::parse_str(ID).unwrap().as_u128());
    assert_eq!(m, uuid::Uuid::parse_str(other).unwrap().as_u128());
}

#[test]
fn request_ids_report_which_is_bad() {
    let why = uuid::Uuid::parse_str("nope").unwrap_err().to_string();
    let e = request_ids("nope", ID).unwrap_err();
    assert_eq!(e.code, 400);
    assert_eq!(e.message, format!("build_id is not a valid uuid: {why}"));
    let e = request_ids(ID, "nope").unwrap_err();
    assert_eq!(e.message, format!("machine_id is not a valid uuid: {why}"));
    let e = request_ids("nope", "also bad").unwrap_err();
    assert!(e.message.starts_with("build_id"));
}

#[test]
fn routes() {
    assert_eq!(route(Method::Get, "/health"), Route::Health);
    assert_eq!(route(Method::Post, "/health"), Route::NotFound);
    assert_eq!(route(Method::Post, "/rpc/check-version"), Route::CheckVersion);
    assert_eq!(route(Method::Post, "/rpc/tunnel/send"), Route::TunnelSend);
    assert_eq!(route(Method::Get, "/rpc/tunnel/recv"), Route::TunnelRecv);
    assert_eq!(route(Method::Post, "/rpc/build-log"), Route::BuildLog);
    assert_eq!(route(Method::Post, "/rpc/build-result"), Route::BuildResult);
    assert_eq!(route(Method::Post, "/rpc/step-update"), Route::StepUpdate);
    assert_eq!(route(Method::Post, "/rpc/complete-build"), Route::CompleteBuild);
    assert_eq!(route(Method::Post, "/rpc/fetch-requisites"), Route::FetchRequisites);
    assert_eq!(route(Method::Post, "/rpc/has-path"), Route::HasPath);
    assert_eq!(route(Method::Get, "/rpc/stream-file"), Route::StreamFile);
    assert_eq!(route(Method::Post, "/rpc/stream-files"), Route::StreamFiles);
    assert_eq!(route(Method::Post, "/rpc/presigned-url"), Route::PresignedUrl);
    assert_eq!(route(Method::Post, "/rpc/presigned-complete"), Route::PresignedComplete);
    assert_eq!(route(Method::Get, "/rpc/build-log"), Route::NotFound);
    assert_eq!(route(Method::Other, "/health"), Route::NotFound);
    assert_eq!(route(Method::Post, "/rpc/unknown"), Route::NotFound);
}

#[test]
fn not_found_answer() {
    let e = not_found();
    assert_eq!((e.code, e.message.as_str()), (404, "not found"));
}

#[test]
fn auth_without_tokens_accepts() {
    assert!(check_auth(None, &AuthHeader::Missing).is_ok());
}

#[test]
fn auth_checks_bearer_tokens() {
    let tokens = vec!["secret".to_string(), "other".to_string()];
    assert!(check_auth(Some(&tokens), &AuthHeader::Value("Bearer other".to_string())).is_ok());
    for h in [
        AuthHeader::Missing,
        AuthHeader::Unreadable,
        AuthHeader::Value("secret".to_string()),
        AuthHeader::Value("Bearer nope".to_string()),
        AuthHeader::Value("Bearer secret ".to_string()),
    ] {
        let e = check_auth(Some(&tokens), &h).unwrap_err();
        assert_eq!((e.code, e.message.as_str()), (401, "No valid auth token"));
    }
}

#[test]
fn version_handshake() {
    let r = version_check_response("1.2.3", "1.2.3");
    assert!(r.compatible);
    assert_eq!(r.server_version, "1.2.3");
    assert!(check_version_compatibility("1.2.3", &r).is_ok());
    let r = version_check_response("1.2.3", "1.3.0");
    assert!(!r.compatible);
    assert_eq!(
        check_version_compatibility("1.2.3", &r).unwrap_err(),
        "API version mismatch: client has 1.2.3, server has 1.3.0"
    );
    let r = VersionCheckResponse { compatible: true, server_version: "x".to_string() };
    assert!(check_version_compatibility("y", &r).is_ok());
}

#[test]
fn health_is_admitted_without_token() {
    let tokens = vec!["secret".to_string()];
    assert_eq!(admit_request(Method::Get, "/health", Some(&tokens), &AuthHeader::Missing).unwrap(), Route::Health);
}

#[test]
fn other_requests_need_a_token() {
    let tokens = vec!["secret".to_string()];
    let e = admit_request(Method::Post, "/rpc/has-path", Some(&tokens), &AuthHeader::Missing).unwrap_err();
    assert_eq!((e.code, e.message.as_str()), (401, "No valid auth token"));
    let e = admit_request(Method::Get, "/nowhere", Some(&tokens), &AuthHeader::Missing).unwrap_err();
    assert_eq!(e.code, 401);
    let ok = AuthHeader::Value("Bearer secret".to_string());
    assert_eq!(admit_request(Method::Post, "/rpc/has-path", Some(&tokens), &ok).unwrap(), Route::HasPath);
    assert_eq!(admit_request(Method::Get, "/nowhere", Some(&tokens), &ok).unwrap(), Route::NotFound);
    assert_eq!(admit_request(Method::Post, "/rpc/has-path", None, &AuthHeader::Missing).unwrap(), Route::HasPath);
}

#[test]
fn machine_id_survives_the_tunnel_uri() {
    let uri = tunnel_recv_uri(ID);
    let query = uri.split_once('?').unwrap().1;
    let id = tunnel_machine_id(Some(query)).unwrap();
    assert_eq!(id, uuid::Uuid::parse_str(ID).unwrap().as_u128());
}
